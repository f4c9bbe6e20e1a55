//! Integration tools: their names `integration__action`, which actions of
//! an integration become tools, and the requests and replies of an action
//! forwarded to the control plane.
use vstd::prelude::*;
use crate::text::{append_str, chars_of, contains, find_from, lemma_find_from_found, occurs_at, starts_with, starts_with_exec, string_of};

verus! {

/// The name of the tool for an integration's action.
pub open spec fn integration_tool_name_spec(integration: Seq<char>, action: Seq<char>) -> Seq<char> {
    integration + "__"@ + action
}

/// `integration__action`.
pub fn integration_tool_name(integration: &str, action: &str) -> (r: String)
    ensures
        r@ == integration_tool_name_spec(integration@, action@),
{
    let mut out = chars_of(integration);
    append_str(&mut out, "__");
    append_str(&mut out, action);
    string_of(&out)
}

/// Calls `str::split_once` with the separator `"__"`: the text before and
/// after its first occurrence.
#[verifier::external_body]
fn split_once_double_underscore(s: &str) -> (r: Option<(&str, &str)>)
    ensures
        match r {
            Some((a, b)) => find_from(s@, "__"@, 0) == a@.len() && s@ == a@ + "__"@ + b@,
            None => find_from(s@, "__"@, 0) == -1,
        },
{
    s.split_once("__")
}

/// The integration and action of a tool name, split at its first `__`,
/// when both are non-empty.
pub open spec fn parse_tool_name_spec(tool_name: Seq<char>) -> Option<(Seq<char>, Seq<char>)> {
    let k = find_from(tool_name, "__"@, 0);
    if k < 0 {
        None
    } else {
        let a = tool_name.take(k);
        let b = tool_name.skip(k + 2);
        if a.len() > 0 && b.len() > 0 {
            Some((a, b))
        } else {
            None
        }
    }
}

/// The integration and action of a tool name `integration__action`, split
/// at the first `__`; `None` when there is none or either side is empty.
pub fn parse_integration_tool_name(tool_name: &str) -> (r: Option<(&str, &str)>)
    ensures
        match r {
            Some((a, b)) => parse_tool_name_spec(tool_name@) == Some((a@, b@)),
            None => parse_tool_name_spec(tool_name@) is None,
        },
{
    proof {
        reveal_strlit("__");
    }
    match split_once_double_underscore(tool_name) {
        None => None,
        Some((a, b)) => {
            proof {
                let k = a@.len() as int;
                assert(tool_name@.take(k) =~= a@);
                assert(tool_name@.skip(k + 2) =~= b@);
            }
            if a.is_empty() || b.is_empty() {
                None
            } else {
                Some((a, b))
            }
        },
    }
}

/// Splitting a tool name made from an integration and an action gives them
/// back, when the integration is not empty, has no `__` and does not end
/// with `_`, and the action is not empty.
pub proof fn lemma_tool_name_roundtrip(integration: Seq<char>, action: Seq<char>)
    requires
        integration.len() > 0,
        action.len() > 0,
        !contains(integration, "__"@),
        integration.last() != '_',
    ensures
        parse_tool_name_spec(integration_tool_name_spec(integration, action)) == Some((integration, action)),
{
    reveal_strlit("__");
    let s = integration_tool_name_spec(integration, action);
    let n = integration.len() as int;
    assert(s.subrange(n, n + 2) =~= "__"@);
    assert forall|j: int| 0 <= j < n implies !occurs_at(s, "__"@, j) by {
        if occurs_at(s, "__"@, j) {
            if j < n - 1 {
                assert(integration.subrange(j, j + 2) =~= s.subrange(j, j + 2));
                assert(occurs_at(integration, "__"@, j));
            } else {
                assert(s[j] == s.subrange(j, j + 2)[0]);
            }
        }
    }
    lemma_find_from_found(s, "__"@, 0, n);
    assert(s.take(n) =~= integration);
    assert(s.skip(n + 2) =~= action);
}

/// The permission an integration action is given.
#[derive(Debug, Clone, Copy, PartialEq, Eq, Structural)]
pub enum ToolPermission {
    Allow,
    RequireApproval,
    Deny,
}

/// An action an integration offers.
#[derive(Debug)]
pub struct IntegrationAction {
    pub name: String,
    pub description: String,
    pub permission: ToolPermission,
}

/// An integration and its actions.
#[derive(Debug)]
pub struct IntegrationDefinition {
    pub name: String,
    pub actions: Vec<IntegrationAction>,
}

/// The tool made for one integration action.
#[derive(Debug)]
pub struct IntegrationToolSpec {
    pub integration_name: String,
    pub action_name: String,
    pub tool_name: String,
    pub description: String,
    pub permission: ToolPermission,
}

/// The tool of an action, as texts: integration, action, tool name and
/// description, with its permission.
pub open spec fn tool_of(integration: Seq<char>, a: IntegrationAction) -> (Seq<char>, Seq<char>, Seq<char>, Seq<
    char,
>, ToolPermission) {
    (integration, a.name@, integration_tool_name_spec(integration, a.name@), "["@ + integration + "] "@
        + a.description@, a.permission)
}

/// The tools of one integration's actions that are not denied, in order.
pub open spec fn integration_tools_of(integration: Seq<char>, actions: Seq<IntegrationAction>) -> Seq<
    (Seq<char>, Seq<char>, Seq<char>, Seq<char>, ToolPermission),
>
    decreases actions.len(),
{
    if actions.len() == 0 {
        seq![]
    } else {
        let rest = integration_tools_of(integration, actions.drop_last());
        if actions.last().permission == ToolPermission::Deny {
            rest
        } else {
            rest.push(tool_of(integration, actions.last()))
        }
    }
}

/// The tools of all integrations, in order.
pub open spec fn integration_tools(defs: Seq<IntegrationDefinition>) -> Seq<
    (Seq<char>, Seq<char>, Seq<char>, Seq<char>, ToolPermission),
>
    decreases defs.len(),
{
    if defs.len() == 0 {
        seq![]
    } else {
        integration_tools(defs.drop_last()) + integration_tools_of(defs.last().name@, defs.last().actions@)
    }
}

/// A tool spec as texts.
pub open spec fn spec_texts(t: IntegrationToolSpec) -> (Seq<char>, Seq<char>, Seq<char>, Seq<char>, ToolPermission) {
    (t.integration_name@, t.action_name@, t.tool_name@, t.description@, t.permission)
}

/// One tool for every action of every integration that is not denied,
/// named `integration__action`, described as `[integration] description`,
/// with the action's permission.
pub fn create_integration_tools(integrations: &Vec<IntegrationDefinition>) -> (r: Vec<IntegrationToolSpec>)
    ensures
        r@.map_values(|t: IntegrationToolSpec| spec_texts(t)) == integration_tools(integrations@),
{
    let mut out: Vec<IntegrationToolSpec> = Vec::new();
    let mut i: usize = 0;
    assert(integrations@.take(0) =~= Seq::<IntegrationDefinition>::empty());
    while i < integrations.len()
        invariant
            i <= integrations.len(),
            out@.map_values(|t: IntegrationToolSpec| spec_texts(t)) == integration_tools(integrations@.take(i as int)),
        decreases integrations.len() - i,
    {
        let def = &integrations[i];
        let ghost base = out@.map_values(|t: IntegrationToolSpec| spec_texts(t));
        let mut j: usize = 0;
        assert(def.actions@.take(0) =~= Seq::<IntegrationAction>::empty());
        assert(base + integration_tools_of(def.name@, def.actions@.take(0)) =~= base);
        while j < def.actions.len()
            invariant
                j <= def.actions.len(),
                out@.map_values(|t: IntegrationToolSpec| spec_texts(t)) == base + integration_tools_of(
                    def.name@,
                    def.actions@.take(j as int),
                ),
            decreases def.actions.len() - j,
        {
            let a = &def.actions[j];
            proof {
                assert(def.actions@.take(j + 1).drop_last() =~= def.actions@.take(j as int));
                assert(def.actions@.take(j + 1).last() == *a);
            }
            if a.permission != ToolPermission::Deny {
                let mut d = chars_of("[");
                append_str(&mut d, def.name.as_str());
                append_str(&mut d, "] ");
                append_str(&mut d, a.description.as_str());
                let t = IntegrationToolSpec {
                    integration_name: def.name.clone(),
                    action_name: a.name.clone(),
                    tool_name: integration_tool_name(def.name.as_str(), a.name.as_str()),
                    description: string_of(&d),
                    permission: a.permission,
                };
                let ghost before = out@.map_values(|t: IntegrationToolSpec| spec_texts(t));
                out.push(t);
                assert(out@.map_values(|t: IntegrationToolSpec| spec_texts(t)) =~= before.push(
                    tool_of(def.name@, *a),
                ));
            }
            j = j + 1;
        }
        proof {
            assert(def.actions@.take(j as int) =~= def.actions@);
            assert(integrations@.take(i + 1).drop_last() =~= integrations@.take(i as int));
            assert(integrations@.take(i + 1).last() == *def);
        }
        i = i + 1;
    }
    assert(integrations@.take(i as int) =~= integrations@);
    out
}

/// The URL an action is forwarded to.
pub open spec fn action_url_spec(control_plane_url: Seq<char>, integration: Seq<char>, action: Seq<char>) -> Seq<char> {
    control_plane_url + "/integrations/"@ + integration + "/actions/"@ + action
}

/// `{control_plane_url}/integrations/{integration}/actions/{action}`.
pub fn action_url(control_plane_url: &str, integration: &str, action: &str) -> (r: String)
    ensures
        r@ == action_url_spec(control_plane_url@, integration@, action@),
{
    let mut out = chars_of(control_plane_url);
    append_str(&mut out, "/integrations/");
    append_str(&mut out, integration);
    append_str(&mut out, "/actions/");
    append_str(&mut out, action);
    string_of(&out)
}

/// The outcome of a forwarded action from the control plane's reply: a
/// server error (`500..=599`) fails with its status and body; any other
/// reply, client errors included, hands its body back as the result.
pub fn action_reply(status: u16, status_text: &str, body: &str) -> (r: Result<String, String>)
    ensures
        500 <= status <= 599 ==> (r matches Err(m) && m@ == "Server error "@ + status_text@ + ": "@ + body@),
        !(500 <= status <= 599) ==> (r matches Ok(b) && b@ == body@),
{
    if 500 <= status && status <= 599 {
        let mut m = chars_of("Server error ");
        append_str(&mut m, status_text);
        append_str(&mut m, ": ");
        append_str(&mut m, body);
        Err(string_of(&m))
    } else {
        Ok(body.to_owned())
    }
}

/// The error of a request to the control plane that could not be sent.
pub fn action_send_failed(error_text: &str) -> (r: String)
    ensures
        r@ == "Integration request failed: "@ + error_text@,
{
    let mut m = chars_of("Integration request failed: ");
    append_str(&mut m, error_text);
    string_of(&m)
}

/// The error of a reply whose body could not be read.
pub fn action_read_failed(error_text: &str) -> (r: String)
    ensures
        r@ == "Failed to read integration response: "@ + error_text@,
{
    let mut m = chars_of("Failed to read integration response: ");
    append_str(&mut m, error_text);
    string_of(&m)
}

/// Whether a failed action is retried: server errors and requests that
/// could not be sent are.
pub fn action_retryable(error: &str) -> (r: bool)
    ensures
        r == (starts_with(error@, "Server error"@) || starts_with(error@, "Integration request failed"@)),
{
    let e = chars_of(error);
    let a = chars_of("Server error");
    let b = chars_of("Integration request failed");
    starts_with_exec(&e, &a) || starts_with_exec(&e, &b)
}

/// No denied action becomes a tool.
pub proof fn lemma_no_denied_tools(defs: Seq<IntegrationDefinition>)
    ensures
        forall|i: int| 0 <= i < integration_tools(defs).len() ==> (#[trigger] integration_tools(defs)[i]).4
            != ToolPermission::Deny,
    decreases defs.len(),
{
    if defs.len() > 0 {
        lemma_no_denied_tools(defs.drop_last());
        lemma_no_denied_actions(defs.last().name@, defs.last().actions@);
        let a = integration_tools(defs.drop_last());
        let b = integration_tools_of(defs.last().name@, defs.last().actions@);
        assert forall|i: int| 0 <= i < integration_tools(defs).len() implies (#[trigger] integration_tools(
            defs,
        )[i]).4 != ToolPermission::Deny by {
            if i < a.len() {
                assert(integration_tools(defs)[i] == a[i]);
            } else {
                assert(integration_tools(defs)[i] == b[i - a.len()]);
            }
        }
    }
}

/// No denied action of one integration becomes a tool.
pub proof fn lemma_no_denied_actions(integration: Seq<char>, actions: Seq<IntegrationAction>)
    ensures
        forall|i: int| 0 <= i < integration_tools_of(integration, actions).len() ==> (
        #[trigger] integration_tools_of(integration, actions)[i]).4 != ToolPermission::Deny,
    decreases actions.len(),
{
    if actions.len() > 0 {
        lemma_no_denied_actions(integration, actions.drop_last());
    }
}

} // verus!

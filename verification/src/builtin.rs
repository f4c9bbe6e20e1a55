//! Which built-in tools a registry gets, by name and in registration order:
//! the full set for an agent, the reduced set for a subagent, and the set
//! filtered by an agent's list of allowed tools.
use vstd::prelude::*;

use crate::text::{chars_eq, chars_of};

verus! {

/// Options of a registration of the built-in tools.
#[derive(Debug, Clone, Copy)]
pub struct RegisterFlags {
    pub include_agent_tool: bool,
    pub include_sub_agent_tool: bool,
    pub include_batch_tool: bool,
    pub include_ping_me_back_tools: bool,
    /// A language server manager is available.
    pub lsp_available: bool,
}

/// The file-system, shell and editing tools, always present.
pub open spec fn base_names() -> Seq<Seq<char>> {
    seq![
        "Read"@,
        "Glob"@,
        "LS"@,
        "AstGrep"@,
        "RipGrep"@,
        "bash"@,
        "edit"@,
        "write"@,
        "apply_patch"@,
        "multiedit"@,
        "web_fetch"@,
    ]
}

/// The web tools registered when a web service URL is configured, in the
/// order of a full registration.
pub open spec fn web_names_full() -> Seq<Seq<char>> {
    seq!["web_crawl"@, "web_search"@, "web_get_links"@, "web_screenshot"@, "web_transform"@]
}

/// The same web tools in the order of a filtered registration.
pub open spec fn web_names_filtered() -> Seq<Seq<char>> {
    seq!["web_search"@, "web_crawl"@, "web_get_links"@, "web_screenshot"@, "web_transform"@]
}

/// `s` when `b`, else nothing.
pub open spec fn when(b: bool, s: Seq<Seq<char>>) -> Seq<Seq<char>> {
    if b {
        s
    } else {
        seq![]
    }
}

/// The names a full registration with `flags` registers, in order.
pub open spec fn core_names(flags: RegisterFlags, web_url_set: bool) -> Seq<Seq<char>> {
    base_names() + when(web_url_set, web_names_full()) + seq!["todowrite"@, "todoread"@] + when(
        flags.lsp_available,
        seq!["lsp"@],
    ) + when(flags.include_ping_me_back_tools, seq!["ping_me_back_in"@, "cancel_ping_me_back"@]) + when(
        flags.include_agent_tool,
        seq!["agent"@],
    ) + when(flags.include_sub_agent_tool, seq!["sub_agent"@]) + when(flags.include_batch_tool, seq!["batch"@])
}

/// The tools a filtered registration considers, in order, before the
/// batch tool.
pub open spec fn filter_candidates(web_url_set: bool, lsp_available: bool) -> Seq<Seq<char>> {
    base_names() + when(web_url_set, web_names_filtered()) + seq!["todowrite"@, "todoread"@] + when(
        lsp_available,
        seq!["lsp"@],
    ) + seq!["agent"@, "sub_agent"@]
}

/// The texts of a list of strings.
pub open spec fn texts(v: Seq<String>) -> Seq<Seq<char>> {
    v.map_values(|s: String| s@)
}

/// The names a filtered registration registers: nothing for an empty
/// list; otherwise the candidates that are allowed, then the batch tool if
/// it is allowed.
pub open spec fn filtered_names(allowed: Seq<Seq<char>>, web_url_set: bool, lsp_available: bool) -> Seq<
    Seq<char>,
> {
    if allowed.len() == 0 {
        seq![]
    } else {
        filter_candidates(web_url_set, lsp_available).filter(|n: Seq<char>| allowed.contains(n)) + when(
            allowed.contains("batch"@),
            seq!["batch"@],
        )
    }
}

/// The flags of a full registration for an agent.
pub fn agent_flags(lsp_available: bool) -> (r: RegisterFlags)
    ensures
        r == (RegisterFlags {
            include_agent_tool: true,
            include_sub_agent_tool: true,
            include_batch_tool: true,
            include_ping_me_back_tools: true,
            lsp_available,
        }),
{
    RegisterFlags {
        include_agent_tool: true,
        include_sub_agent_tool: true,
        include_batch_tool: true,
        include_ping_me_back_tools: true,
        lsp_available,
    }
}

/// The flags of a registration for a subagent: no agent tools, no
/// ping-back tools, no language server.
pub fn subagent_flags() -> (r: RegisterFlags)
    ensures
        r == (RegisterFlags {
            include_agent_tool: false,
            include_sub_agent_tool: false,
            include_batch_tool: true,
            include_ping_me_back_tools: false,
            lsp_available: false,
        }),
{
    RegisterFlags {
        include_agent_tool: false,
        include_sub_agent_tool: false,
        include_batch_tool: true,
        include_ping_me_back_tools: false,
        lsp_available: false,
    }
}

/// Appends `s` to `out`.
fn push_name(out: &mut Vec<String>, s: &str)
    ensures
        texts(final(out)@) == texts(old(out)@).push(s@),
{
    let ghost before = texts(out@);
    out.push(s.to_owned());
    assert(texts(out@) =~= before.push(s@));
}

/// Appends the always-present tools.
fn push_base(out: &mut Vec<String>)
    ensures
        texts(final(out)@) == texts(old(out)@) + base_names(),
{
    let ghost before = texts(out@);
    push_name(out, "Read");
    push_name(out, "Glob");
    push_name(out, "LS");
    push_name(out, "AstGrep");
    push_name(out, "RipGrep");
    push_name(out, "bash");
    push_name(out, "edit");
    push_name(out, "write");
    push_name(out, "apply_patch");
    push_name(out, "multiedit");
    push_name(out, "web_fetch");
    assert(texts(out@) =~= before + base_names());
}

/// The names of the tools a full registration with `flags` registers, in
/// order; `web_url_set` tells whether a web service URL is configured.
pub fn core_tool_names(flags: RegisterFlags, web_url_set: bool) -> (r: Vec<String>)
    ensures
        texts(r@) == core_names(flags, web_url_set),
{
    let mut out: Vec<String> = Vec::new();
    push_base(&mut out);
    let ghost a = texts(out@);
    if web_url_set {
        push_name(&mut out, "web_crawl");
        push_name(&mut out, "web_search");
        push_name(&mut out, "web_get_links");
        push_name(&mut out, "web_screenshot");
        push_name(&mut out, "web_transform");
    }
    assert(texts(out@) =~= a + when(web_url_set, web_names_full()));
    let ghost b = texts(out@);
    push_name(&mut out, "todowrite");
    push_name(&mut out, "todoread");
    assert(texts(out@) =~= b + seq!["todowrite"@, "todoread"@]);
    let ghost c = texts(out@);
    if flags.lsp_available {
        push_name(&mut out, "lsp");
    }
    assert(texts(out@) =~= c + when(flags.lsp_available, seq!["lsp"@]));
    let ghost d = texts(out@);
    if flags.include_ping_me_back_tools {
        push_name(&mut out, "ping_me_back_in");
        push_name(&mut out, "cancel_ping_me_back");
    }
    assert(texts(out@) =~= d + when(
        flags.include_ping_me_back_tools,
        seq!["ping_me_back_in"@, "cancel_ping_me_back"@],
    ));
    let ghost e = texts(out@);
    if flags.include_agent_tool {
        push_name(&mut out, "agent");
    }
    assert(texts(out@) =~= e + when(flags.include_agent_tool, seq!["agent"@]));
    let ghost f = texts(out@);
    if flags.include_sub_agent_tool {
        push_name(&mut out, "sub_agent");
    }
    assert(texts(out@) =~= f + when(flags.include_sub_agent_tool, seq!["sub_agent"@]));
    let ghost g = texts(out@);
    if flags.include_batch_tool {
        push_name(&mut out, "batch");
    }
    assert(texts(out@) =~= g + when(flags.include_batch_tool, seq!["batch"@]));
    out
}

/// The tools of a full registration for an agent.
pub fn builtin_tool_names(lsp_available: bool, web_url_set: bool) -> (r: Vec<String>)
    ensures
        texts(r@) == core_names(
            RegisterFlags {
                include_agent_tool: true,
                include_sub_agent_tool: true,
                include_batch_tool: true,
                include_ping_me_back_tools: true,
                lsp_available,
            },
            web_url_set,
        ),
{
    core_tool_names(agent_flags(lsp_available), web_url_set)
}

/// The tools of a registration for a subagent.
pub fn subagent_tool_names(web_url_set: bool) -> (r: Vec<String>)
    ensures
        texts(r@) == core_names(
            RegisterFlags {
                include_agent_tool: false,
                include_sub_agent_tool: false,
                include_batch_tool: true,
                include_ping_me_back_tools: false,
                lsp_available: false,
            },
            web_url_set,
        ),
{
    core_tool_names(subagent_flags(), web_url_set)
}

/// Is `name` in `allowed`?
fn allowed_contains(allowed: &[String], name: &str) -> (r: bool)
    ensures
        r == texts(allowed@).contains(name@),
{
    let target = chars_of(name);
    let mut i: usize = 0;
    while i < allowed.len()
        invariant
            i <= allowed.len(),
            target@ == name@,
            forall|j: int| 0 <= j < i ==> allowed@[j]@ != name@,
        decreases allowed.len() - i,
    {
        let c = chars_of(allowed[i].as_str());
        if chars_eq(&c, &target) {
            assert(texts(allowed@)[i as int] == name@);
            return true;
        }
        i = i + 1;
    }
    assert forall|j: int| 0 <= j < texts(allowed@).len() implies texts(allowed@)[j] != name@ by {
        assert(allowed@[j]@ != name@);
    }
    false
}

/// The names of the tools a registration filtered by `allowed` registers,
/// in order. An empty list registers nothing; names that are no built-in
/// tool are ignored.
pub fn filtered_tool_names(allowed: &[String], web_url_set: bool, lsp_available: bool) -> (r: Vec<String>)
    ensures
        texts(r@) == filtered_names(texts(allowed@), web_url_set, lsp_available),
{
    let mut out: Vec<String> = Vec::new();
    if allowed.len() == 0 {
        assert(texts(out@) =~= Seq::<Seq<char>>::empty());
        return out;
    }
    let mut cands: Vec<String> = Vec::new();
    push_base(&mut cands);
    let ghost a = texts(cands@);
    if web_url_set {
        push_name(&mut cands, "web_search");
        push_name(&mut cands, "web_crawl");
        push_name(&mut cands, "web_get_links");
        push_name(&mut cands, "web_screenshot");
        push_name(&mut cands, "web_transform");
    }
    assert(texts(cands@) =~= a + when(web_url_set, web_names_filtered()));
    let ghost b = texts(cands@);
    push_name(&mut cands, "todowrite");
    push_name(&mut cands, "todoread");
    let ghost c = texts(cands@);
    if lsp_available {
        push_name(&mut cands, "lsp");
    }
    assert(texts(cands@) =~= c + when(lsp_available, seq!["lsp"@]));
    push_name(&mut cands, "agent");
    push_name(&mut cands, "sub_agent");
    let ghost cand = filter_candidates(web_url_set, lsp_available);
    assert(texts(cands@) =~= cand);
    let ghost al = texts(allowed@);
    let mut i: usize = 0;
    proof {
        reveal(Seq::filter);
        assert(cand.take(0).filter(|n: Seq<char>| al.contains(n)) =~= Seq::<Seq<char>>::empty());
    }
    while i < cands.len()
        invariant
            i <= cands.len(),
            texts(cands@) == cand,
            al == texts(allowed@),
            texts(out@) == cand.take(i as int).filter(|n: Seq<char>| al.contains(n)),
        decreases cands.len() - i,
    {
        proof {
            reveal(Seq::filter);
            assert(cand.take(i + 1).drop_last() =~= cand.take(i as int));
            assert(cand.take(i + 1).last() == cands@[i as int]@);
        }
        if allowed_contains(allowed, cands[i].as_str()) {
            let ghost before = texts(out@);
            let n = cands[i].clone();
            out.push(n);
            assert(texts(out@) =~= before.push(cands@[i as int]@));
        }
        i = i + 1;
    }
    assert(cand.take(i as int) =~= cand);
    let ghost d = texts(out@);
    if allowed_contains(allowed, "batch") {
        push_name(&mut out, "batch");
    }
    assert(texts(out@) =~= d + when(al.contains("batch"@), seq!["batch"@]));
    out
}

/// Every name a filtered registration registers is allowed, and is one of
/// the built-in tools.
pub proof fn lemma_filtered_names_allowed(allowed: Seq<Seq<char>>, web_url_set: bool, lsp_available: bool)
    ensures
        forall|i: int|
            0 <= i < filtered_names(allowed, web_url_set, lsp_available).len() ==> allowed.contains(
                #[trigger] filtered_names(allowed, web_url_set, lsp_available)[i],
            ),
        allowed.len() == 0 ==> filtered_names(allowed, web_url_set, lsp_available).len() == 0,
{
    if allowed.len() > 0 {
        let cand = filter_candidates(web_url_set, lsp_available);
        let f = cand.filter(|n: Seq<char>| allowed.contains(n));
        let r = filtered_names(allowed, web_url_set, lsp_available);
        assert forall|i: int| 0 <= i < r.len() implies allowed.contains(#[trigger] r[i]) by {
            if i < f.len() {
                cand.lemma_filter_pred(|n: Seq<char>| allowed.contains(n), i);
                assert(r[i] == f[i]);
            } else {
                reveal_strlit("batch");
            }
        }
    }
}

} // verus!

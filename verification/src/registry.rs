//! The registry of tools by name: registration, exact and case-insensitive
//! lookup, suggestions for unknown names, and the error texts for an
//! unknown tool and for invalid arguments.
//!
//! Tools are kept in registration order and no name occurs twice. Where a
//! lookup could match several tools, the first in that order wins.
use vstd::prelude::*;

use crate::read::{lowercase, to_lowercase};
use crate::similarity::{dissimilarity, more_similar, more_similar_exec, sim_den, sim_num};
use crate::text::{
    append_chars, append_str, chars_eq, chars_of, contains, contains_exec, join, join_vec, lines_of,
    lines_vec, string_of, views,
};

verus! {

/// A registered tool: its name and description.
#[derive(Debug)]
pub struct ToolEntry {
    pub name: String,
    pub description: String,
}

/// Registry of available tools.
#[derive(Debug)]
pub struct ToolRegistry {
    entries: Vec<ToolEntry>,
}

/// An entry as a pair of texts.
pub open spec fn entry_pair(e: ToolEntry) -> (Seq<char>, Seq<char>) {
    (e.name@, e.description@)
}

impl View for ToolRegistry {
    type V = Seq<(Seq<char>, Seq<char>)>;

    /// The `(name, description)` pairs in registration order.
    closed spec fn view(&self) -> Seq<(Seq<char>, Seq<char>)> {
        self.entries@.map_values(|e: ToolEntry| entry_pair(e))
    }
}

/// The names, in order.
pub open spec fn names_of(v: Seq<(Seq<char>, Seq<char>)>) -> Seq<Seq<char>> {
    v.map_values(|e: (Seq<char>, Seq<char>)| e.0)
}

/// No name occurs twice.
pub open spec fn unique_names(v: Seq<(Seq<char>, Seq<char>)>) -> bool {
    forall|i: int, j: int| 0 <= i < j < v.len() ==> v[i].0 != v[j].0
}

/// Some entry has this name.
pub open spec fn has_name(v: Seq<(Seq<char>, Seq<char>)>, name: Seq<char>) -> bool {
    exists|i: int| 0 <= i < v.len() && v[i].0 == name
}

/// Index of the entry named `name`, when there is one.
pub open spec fn name_index(v: Seq<(Seq<char>, Seq<char>)>, name: Seq<char>) -> int {
    choose|i: int| 0 <= i < v.len() && v[i].0 == name
}

/// `v` after registering `(name, description)`: an entry of that name is
/// replaced in place, otherwise the pair is appended.
pub open spec fn registered(v: Seq<(Seq<char>, Seq<char>)>, name: Seq<char>, description: Seq<char>) -> Seq<
    (Seq<char>, Seq<char>),
> {
    if has_name(v, name) {
        v.update(name_index(v, name), (name, description))
    } else {
        v.push((name, description))
    }
}

/// `a` with the entries of `b` added in order, skipping names already there.
pub open spec fn merged(a: Seq<(Seq<char>, Seq<char>)>, b: Seq<(Seq<char>, Seq<char>)>) -> Seq<
    (Seq<char>, Seq<char>),
>
    decreases b.len(),
{
    if b.len() == 0 {
        a
    } else {
        let m = merged(a, b.drop_last());
        if has_name(m, b.last().0) {
            m
        } else {
            m.push(b.last())
        }
    }
}

/// The first name whose lowercase form is `low`.
pub open spec fn first_lowercase_match(v: Seq<(Seq<char>, Seq<char>)>, low: Seq<char>) -> Option<Seq<char>>
    decreases v.len(),
{
    if v.len() == 0 {
        None
    } else if lowercase(v[0].0) == low {
        Some(v[0].0)
    } else {
        first_lowercase_match(v.drop_first(), low)
    }
}

/// The name an exact or, failing that, a case-insensitive lookup finds.
pub open spec fn case_insensitive_match(v: Seq<(Seq<char>, Seq<char>)>, name: Seq<char>) -> Option<
    Seq<char>,
> {
    if has_name(v, name) {
        Some(name)
    } else {
        first_lowercase_match(v, lowercase(name))
    }
}

/// Walk over the names keeping the one most similar to `low` (the first
/// of equals), as `(name, num, den)` with dissimilarity `num / den`; the
/// start `(None, 1, 1)` stands for similarity zero.
pub open spec fn suggest_fold(v: Seq<(Seq<char>, Seq<char>)>, low: Seq<char>) -> (Option<Seq<char>>, nat, nat)
    decreases v.len(),
{
    if v.len() == 0 {
        (None, 1, 1)
    } else {
        let prev = suggest_fold(v.drop_last(), low);
        let k = lowercase(v.last().0);
        let n = sim_num(low, k);
        let d = sim_den(low, k);
        if more_similar(n, d, prev.1, prev.2) {
            (Some(v.last().0), n, d)
        } else {
            prev
        }
    }
}

/// The suggested name: the most similar one, when its similarity exceeds
/// `0.4`.
pub open spec fn suggestion(v: Seq<(Seq<char>, Seq<char>)>, name: Seq<char>) -> Option<Seq<char>> {
    let f = suggest_fold(v, lowercase(name));
    if 5 * f.1 < 3 * f.2 {
        f.0
    } else {
        None
    }
}

/// The message for an unknown tool name.
pub open spec fn unknown_tool_text(v: Seq<(Seq<char>, Seq<char>)>, name: Seq<char>) -> Seq<char> {
    let names = join(names_of(v), ", "@);
    match suggestion(v, name) {
        Some(s) => "Unknown tool '"@ + name + "'. Did you mean '"@ + s + "'? Available tools: ["@ + names
            + "]"@,
        None => "Unknown tool '"@ + name + "'. Available tools: ["@ + names + "]"@,
    }
}

/// The text of an optional `String`.
pub open spec fn opt_text(o: Option<String>) -> Option<Seq<char>> {
    match o {
        Some(s) => Some(s@),
        None => None,
    }
}

impl ToolRegistry {
    /// Well-formed: no name twice.
    pub open spec fn wf(&self) -> bool {
        unique_names(self@)
    }

    /// Create a new empty registry.
    pub fn new() -> (r: Self)
        ensures
            r@ == Seq::<(Seq<char>, Seq<char>)>::empty(),
            r.wf(),
    {
        let r = ToolRegistry { entries: Vec::new() };
        assert(r@ =~= Seq::<(Seq<char>, Seq<char>)>::empty());
        r
    }

    /// Position of the entry named `name`.
    fn position(&self, name: &str) -> (r: Option<usize>)
        ensures
            match r {
                Some(i) => i < self@.len() && self@[i as int].0 == name@,
                None => !has_name(self@, name@),
            },
    {
        let target = chars_of(name);
        let mut i: usize = 0;
        while i < self.entries.len()
            invariant
                i <= self.entries.len(),
                target@ == name@,
                self@.len() == self.entries@.len(),
                forall|j: int| 0 <= j < i ==> self@[j].0 != name@,
            decreases self.entries.len() - i,
        {
            let cand = chars_of(self.entries[i].name.as_str());
            if chars_eq(&cand, &target) {
                return Some(i);
            }
            i = i + 1;
        }
        None
    }

    /// Register a tool; a tool of the same name is replaced in place.
    pub fn register(&mut self, name: String, description: String)
        requires
            old(self).wf(),
        ensures
            final(self).wf(),
            final(self)@ == registered(old(self)@, name@, description@),
    {
        let ghost n = name@;
        let ghost d = description@;
        let ghost old_v = self@;
        match self.position(name.as_str()) {
            Some(i) => {
                proof {
                    assert(has_name(old_v, n));
                    let k = name_index(old_v, n);
                    if k != i {
                        if k < i {
                            assert(old_v[k].0 != old_v[i as int].0);
                        } else {
                            assert(old_v[i as int].0 != old_v[k].0);
                        }
                    }
                }
                self.entries.set(i, ToolEntry { name, description });
                assert(self@ =~= old_v.update(i as int, (n, d)));
            },
            None => {
                self.entries.push(ToolEntry { name, description });
                assert(self@ =~= old_v.push((n, d)));
            },
        }
    }

    /// Remove the tool named `name`, if registered.
    pub fn remove(&mut self, name: &str)
        requires
            old(self).wf(),
        ensures
            final(self).wf(),
            !has_name(final(self)@, name@),
            has_name(old(self)@, name@) ==> exists|i: int|
                0 <= i < old(self)@.len() && old(self)@[i].0 == name@ && final(self)@ == old(
                    self,
                )@.remove(i),
            !has_name(old(self)@, name@) ==> final(self)@ == old(self)@,
    {
        let ghost old_v = self@;
        match self.position(name) {
            Some(i) => {
                self.entries.remove(i);
                assert(self@ =~= old_v.remove(i as int));
                assert forall|j: int| 0 <= j < self@.len() implies self@[j].0 != name@ by {
                    if j < i {
                        assert(self@[j] == old_v[j]);
                    } else {
                        assert(self@[j] == old_v[j + 1]);
                    }
                }
            },
            None => {},
        }
    }

    /// The description of the tool named `name`.
    pub fn get(&self, name: &str) -> (r: Option<String>)
        ensures
            match r {
                Some(d) => exists|i: int| 0 <= i < self@.len() && self@[i] == (name@, d@),
                None => !has_name(self@, name@),
            },
    {
        match self.position(name) {
            Some(i) => {
                let d = self.entries[i].description.clone();
                assert(self@[i as int] == (name@, d@));
                Some(d)
            },
            None => None,
        }
    }

    /// All registered tools as `(name, description)` pairs.
    pub fn list(&self) -> (r: Vec<(String, String)>)
        ensures
            r@.map_values(|p: (String, String)| (p.0@, p.1@)) == self@,
    {
        let mut out: Vec<(String, String)> = Vec::new();
        let mut i: usize = 0;
        while i < self.entries.len()
            invariant
                i <= self.entries.len(),
                self@.len() == self.entries@.len(),
                out@.map_values(|p: (String, String)| (p.0@, p.1@)) == self@.take(i as int),
            decreases self.entries.len() - i,
        {
            let n = self.entries[i].name.clone();
            let d = self.entries[i].description.clone();
            proof {
                assert(self@[i as int] == entry_pair(self.entries@[i as int]));
            }
            let ghost prev = out@;
            out.push((n, d));
            proof {
                assert(out@.map_values(|p: (String, String)| (p.0@, p.1@)) =~= prev.map_values(
                    |p: (String, String)| (p.0@, p.1@),
                ).push(self@[i as int]));
                assert(self@.take(i + 1) =~= self@.take(i as int).push(self@[i as int]));
            }
            i = i + 1;
        }
        assert(self@.take(i as int) =~= self@);
        out
    }

    /// A copy of all registered tools.
    pub fn snapshot(&self) -> (r: Vec<(String, String)>)
        ensures
            r@.map_values(|p: (String, String)| (p.0@, p.1@)) == self@,
    {
        self.list()
    }

    /// All registered tool names.
    pub fn tool_names(&self) -> (r: Vec<String>)
        ensures
            r@.map_values(|s: String| s@) == names_of(self@),
    {
        let mut out: Vec<String> = Vec::new();
        let mut i: usize = 0;
        while i < self.entries.len()
            invariant
                i <= self.entries.len(),
                self@.len() == self.entries@.len(),
                out@.map_values(|s: String| s@) == names_of(self@).take(i as int),
            decreases self.entries.len() - i,
        {
            let n = self.entries[i].name.clone();
            proof {
                assert(self@[i as int] == entry_pair(self.entries@[i as int]));
            }
            let ghost prev = out@;
            out.push(n);
            proof {
                assert(out@.map_values(|s: String| s@) =~= prev.map_values(|s: String| s@).push(
                    self@[i as int].0,
                ));
                assert(names_of(self@).take(i + 1) =~= names_of(self@).take(i as int).push(
                    self@[i as int].0,
                ));
            }
            i = i + 1;
        }
        assert(names_of(self@).take(i as int) =~= names_of(self@));
        out
    }

    /// The names as character vectors.
    fn name_chars(&self) -> (r: Vec<Vec<char>>)
        ensures
            views(r@) == names_of(self@),
    {
        let mut out: Vec<Vec<char>> = Vec::new();
        let mut i: usize = 0;
        while i < self.entries.len()
            invariant
                i <= self.entries.len(),
                self@.len() == self.entries@.len(),
                views(out@) == names_of(self@).take(i as int),
            decreases self.entries.len() - i,
        {
            let n = chars_of(self.entries[i].name.as_str());
            proof {
                assert(self@[i as int] == entry_pair(self.entries@[i as int]));
            }
            let ghost prev = views(out@);
            out.push(n);
            proof {
                assert(views(out@) =~= prev.push(self@[i as int].0));
                assert(names_of(self@).take(i + 1) =~= names_of(self@).take(i as int).push(
                    self@[i as int].0,
                ));
            }
            i = i + 1;
        }
        assert(names_of(self@).take(i as int) =~= names_of(self@));
        out
    }

    /// Add the tools of `other` whose names are not registered yet.
    pub fn merge(&mut self, other: ToolRegistry)
        requires
            old(self).wf(),
        ensures
            final(self).wf(),
            final(self)@ == merged(old(self)@, other@),
    {
        let ghost a = self@;
        let ghost b = other@;
        let mut i: usize = 0;
        assert(b.take(0) =~= Seq::<(Seq<char>, Seq<char>)>::empty());
        while i < other.entries.len()
            invariant
                i <= other.entries.len(),
                b == other@,
                b.len() == other.entries@.len(),
                self.wf(),
                self@ == merged(a, b.take(i as int)),
            decreases other.entries.len() - i,
        {
            proof {
                assert(b.take(i + 1).drop_last() =~= b.take(i as int));
                assert(b.take(i + 1).last() == b[i as int]);
            }
            let n = other.entries[i].name.clone();
            let d = other.entries[i].description.clone();
            match self.position(n.as_str()) {
                Some(_) => {},
                None => {
                    let ghost before = self@;
                    self.entries.push(ToolEntry { name: n, description: d });
                    assert(self@ =~= before.push(b[i as int]));
                },
            }
            i = i + 1;
        }
        assert(b.take(i as int) =~= b);
    }

    /// Look a tool up by exact name or, failing that, ignoring case; the
    /// registered name is returned.
    pub fn get_case_insensitive(&self, name: &str) -> (r: Option<String>)
        ensures
            opt_text(r) == case_insensitive_match(self@, name@),
    {
        match self.position(name) {
            Some(i) => {
                let n = self.entries[i].name.clone();
                proof {
                    assert(self@[i as int] == entry_pair(self.entries@[i as int]));
                    assert(has_name(self@, name@));
                }
                return Some(n);
            },
            None => {},
        }
        let low = to_lowercase(name);
        let ghost lw = lowercase(name@);
        let lc = chars_of(low.as_str());
        let mut i: usize = 0;
        assert(self@.skip(0) =~= self@);
        while i < self.entries.len()
            invariant
                i <= self.entries.len(),
                self@.len() == self.entries@.len(),
                lc@ == lw,
                lw == lowercase(name@),
                !has_name(self@, name@),
                first_lowercase_match(self@, lw) == first_lowercase_match(self@.skip(i as int), lw),
            decreases self.entries.len() - i,
        {
            let key = to_lowercase(self.entries[i].name.as_str());
            proof {
                assert(self@[i as int] == entry_pair(self.entries@[i as int]));
                assert(self@.skip(i as int)[0] == self@[i as int]);
                assert(self@.skip(i as int).drop_first() =~= self@.skip(i + 1));
            }
            let kc = chars_of(key.as_str());
            if chars_eq(&kc, &lc) {
                let n = self.entries[i].name.clone();
                proof {
                    let t = self@.skip(i as int);
                    assert(t.len() > 0);
                    assert(lowercase(t[0].0) == lw);
                    assert(first_lowercase_match(t, lw) == Some(t[0].0));
                    assert(n@ == t[0].0);
                }
                return Some(n);
            }
            i = i + 1;
        }
        assert(self@.skip(i as int).len() == 0);
        None
    }

    /// Suggest the closest tool name for an unknown one, by normalized
    /// Levenshtein similarity of the lowercase forms; `None` unless the
    /// best similarity exceeds `0.4`.
    pub fn suggest_tool(&self, name: &str) -> (r: Option<String>)
        ensures
            opt_text(r) == suggestion(self@, name@),
            (exists|j: int| 0 <= j < self@.len() && lowercase(#[trigger] self@[j].0) == lowercase(name@)) ==> (r matches Some(
                s,
            ) && lowercase(s@) == lowercase(name@)),
    {
        let low_s = to_lowercase(name);
        let low = chars_of(low_s.as_str());
        let ghost lw = lowercase(name@);
        let mut best: Option<String> = None;
        let mut bn: usize = 1;
        let mut bd: usize = 1;
        let mut i: usize = 0;
        assert(self@.take(0) =~= Seq::<(Seq<char>, Seq<char>)>::empty());
        while i < self.entries.len()
            invariant
                i <= self.entries.len(),
                self@.len() == self.entries@.len(),
                low@ == lw,
                lw == lowercase(name@),
                (opt_text(best), bn as nat, bd as nat) == suggest_fold(self@.take(i as int), lw),
                bd >= 1,
                bn == 0 ==> (best matches Some(s) && lowercase(s@) == lw),
                (exists|j: int| 0 <= j < i && lowercase(#[trigger] self@[j].0) == lw) ==> bn == 0,
            decreases self.entries.len() - i,
        {
            let kl = to_lowercase(self.entries[i].name.as_str());
            let kc = chars_of(kl.as_str());
            let (n, d) = dissimilarity(&low, &kc);
            proof {
                assert(self@.take(i + 1).drop_last() =~= self@.take(i as int));
                assert(self@.take(i + 1).last() == self@[i as int]);
            }
            proof {
                if bn > 0 {
                    assert(0 < (bn as nat) * (d as nat)) by (nonlinear_arith)
                        requires bn > 0, d >= 1;
                }
            }
            if more_similar_exec(n, d, bn, bd) {
                best = Some(self.entries[i].name.clone());
                bn = n;
                bd = d;
            }
            proof {
                assert(self@[i as int].0 == self.entries@[i as int].name@);
                assert forall|j: int| 0 <= j < i + 1 && lowercase(#[trigger] self@[j].0) == lw implies bn == 0 by {
                    if j < i {
                    }
                }
            }
            i = i + 1;
        }
        assert(self@.take(i as int) =~= self@);
        if 5 * (bn as u128) < 3 * (bd as u128) {
            best
        } else {
            None
        }
    }

    /// The error message for an unknown tool name, with a suggestion when
    /// a close match exists.
    pub fn unknown_tool_error(&self, name: &str) -> (r: String)
        ensures
            r@ == unknown_tool_text(self@, name@),
    {
        let names = self.name_chars();
        let sep = chars_of(", ");
        let listed = join_vec(&names, &sep);
        let mut out: Vec<char> = Vec::new();
        append_str(&mut out, "Unknown tool '");
        append_str(&mut out, name);
        match self.suggest_tool(name) {
            Some(s) => {
                append_str(&mut out, "'. Did you mean '");
                append_str(&mut out, s.as_str());
                append_str(&mut out, "'? Available tools: [");
            },
            None => {
                append_str(&mut out, "'. Available tools: [");
            },
        }
        append_chars(&mut out, &listed);
        append_str(&mut out, "]");
        string_of(&out)
    }
}

/// A JSON value, as the schema of a tool's parameters holds it. An
/// object's members are kept in the order its map walks them; numbers keep
/// their text.
#[derive(Debug)]
pub enum JsonValue {
    Null,
    Bool(bool),
    Number(String),
    Str(String),
    Array(Vec<JsonValue>),
    Object(Vec<(String, JsonValue)>),
}

/// The member `key` of an object's members.
pub open spec fn member(m: Seq<(String, JsonValue)>, key: Seq<char>) -> Option<JsonValue>
    decreases m.len(),
{
    if m.len() == 0 {
        None
    } else if m[0].0@ == key {
        Some(m[0].1)
    } else {
        member(m.drop_first(), key)
    }
}

/// `value.get(key)`: the member of an object, `None` for other values.
pub open spec fn json_get(v: JsonValue, key: Seq<char>) -> Option<JsonValue> {
    match v {
        JsonValue::Object(m) => member(m@, key),
        _ => None,
    }
}

/// The first member value that itself has a member `key`.
pub open spec fn first_with(m: Seq<(String, JsonValue)>, key: Seq<char>) -> Option<JsonValue>
    decreases m.len(),
{
    if m.len() == 0 {
        None
    } else if json_get(m[0].1, key) is Some {
        Some(m[0].1)
    } else {
        first_with(m.drop_first(), key)
    }
}

/// `key` of the schema itself or, failing that, of the first definition
/// under `$defs` that has it.
pub open spec fn schema_lookup(schema: JsonValue, key: Seq<char>) -> Option<JsonValue> {
    match json_get(schema, key) {
        Some(x) => Some(x),
        None => match json_get(schema, "$defs"@) {
            Some(JsonValue::Object(defs)) => match first_with(defs@, key) {
                Some(d) => json_get(d, key),
                None => None,
            },
            _ => None,
        },
    }
}

/// The strings among `items`, in order.
pub open spec fn string_items(items: Seq<JsonValue>) -> Seq<Seq<char>>
    decreases items.len(),
{
    if items.len() == 0 {
        seq![]
    } else {
        let rest = string_items(items.drop_first());
        match items[0] {
            JsonValue::Str(s) => seq![s@] + rest,
            _ => rest,
        }
    }
}

/// The required field names a schema declares: none unless it has
/// properties, and only the strings of a `required` array.
pub open spec fn required_fields(schema: JsonValue) -> Seq<Seq<char>> {
    if schema_lookup(schema, "properties"@) is None {
        seq![]
    } else {
        match schema_lookup(schema, "required"@) {
            Some(JsonValue::Array(a)) => string_items(a@),
            _ => seq![],
        }
    }
}

/// The short description of a validation error.
pub open spec fn specific_issue(error: Seq<char>) -> Seq<char> {
    if contains(error, "missing"@) || contains(error, "required"@) {
        "missing required field(s)"@
    } else if contains(error, "type"@) || contains(error, "expected"@) {
        "wrong type for field(s)"@
    } else if lines_of(error).len() > 0 {
        lines_of(error)[0]
    } else {
        error
    }
}

/// The message for invalid tool arguments.
pub open spec fn validation_error_text(tool_name: Seq<char>, error: Seq<char>, schema: JsonValue) -> Seq<char> {
    let req = required_fields(schema);
    if req.len() == 0 {
        "Invalid arguments for tool '"@ + tool_name + "': "@ + specific_issue(error)
            + ". See tool description for usage."@
    } else {
        "Invalid arguments for tool '"@ + tool_name + "': "@ + specific_issue(error) + ". Required fields: ["@
            + join(req, ", "@) + "]. See tool description for usage."@
    }
}

/// The member `key` of a list of object members.
fn member_exec<'a>(m: &'a Vec<(String, JsonValue)>, key: &str) -> (r: Option<&'a JsonValue>)
    ensures
        match r {
            Some(x) => member(m@, key@) == Some(*x),
            None => member(m@, key@) is None,
        },
{
    let target = chars_of(key);
    let mut i: usize = 0;
    assert(m@.skip(0) =~= m@);
    while i < m.len()
        invariant
            i <= m.len(),
            target@ == key@,
            member(m@, key@) == member(m@.skip(i as int), key@),
        decreases m.len() - i,
    {
        proof {
            assert(m@.skip(i as int)[0] == m@[i as int]);
            assert(m@.skip(i as int).drop_first() =~= m@.skip(i + 1));
        }
        let k = chars_of(m[i].0.as_str());
        if chars_eq(&k, &target) {
            return Some(&m[i].1);
        }
        i = i + 1;
    }
    assert(m@.skip(i as int).len() == 0);
    None
}

/// `value.get(key)`.
pub(crate) fn json_get_exec<'a>(v: &'a JsonValue, key: &str) -> (r: Option<&'a JsonValue>)
    ensures
        match r {
            Some(x) => json_get(*v, key@) == Some(*x),
            None => json_get(*v, key@) is None,
        },
{
    match v {
        JsonValue::Object(m) => member_exec(m, key),
        _ => None,
    }
}

/// The first member value that has a member `key`.
fn first_with_exec<'a>(m: &'a Vec<(String, JsonValue)>, key: &str) -> (r: Option<&'a JsonValue>)
    ensures
        match r {
            Some(x) => first_with(m@, key@) == Some(*x),
            None => first_with(m@, key@) is None,
        },
{
    let mut i: usize = 0;
    assert(m@.skip(0) =~= m@);
    while i < m.len()
        invariant
            i <= m.len(),
            first_with(m@, key@) == first_with(m@.skip(i as int), key@),
        decreases m.len() - i,
    {
        proof {
            assert(m@.skip(i as int)[0] == m@[i as int]);
            assert(m@.skip(i as int).drop_first() =~= m@.skip(i + 1));
        }
        if json_get_exec(&m[i].1, key).is_some() {
            return Some(&m[i].1);
        }
        i = i + 1;
    }
    assert(m@.skip(i as int).len() == 0);
    None
}

/// `key` of the schema or of its first definition that has it.
fn schema_lookup_exec<'a>(schema: &'a JsonValue, key: &str) -> (r: Option<&'a JsonValue>)
    ensures
        match r {
            Some(x) => schema_lookup(*schema, key@) == Some(*x),
            None => schema_lookup(*schema, key@) is None,
        },
{
    match json_get_exec(schema, key) {
        Some(x) => Some(x),
        None => match json_get_exec(schema, "$defs") {
            Some(JsonValue::Object(defs)) => match first_with_exec(defs, key) {
                Some(d) => json_get_exec(d, key),
                None => None,
            },
            _ => None,
        },
    }
}

/// The strings among `items`.
fn string_items_exec(items: &Vec<JsonValue>) -> (r: Vec<Vec<char>>)
    ensures
        views(r@) == string_items(items@),
{
    let mut out: Vec<Vec<char>> = Vec::new();
    let mut i: usize = 0;
    assert(items@.skip(0) =~= items@);
    while i < items.len()
        invariant
            i <= items.len(),
            string_items(items@) == views(out@) + string_items(items@.skip(i as int)),
        decreases items.len() - i,
    {
        proof {
            assert(items@.skip(i as int)[0] == items@[i as int]);
            assert(items@.skip(i as int).drop_first() =~= items@.skip(i + 1));
        }
        match &items[i] {
            JsonValue::Str(s) => {
                let ghost before = views(out@);
                out.push(chars_of(s.as_str()));
                assert(views(out@) =~= before.push(s@));
                assert(before + (seq![s@] + string_items(items@.skip(i + 1))) =~= views(out@)
                    + string_items(items@.skip(i + 1)));
            },
            _ => {},
        }
        i = i + 1;
    }
    assert(items@.skip(i as int).len() == 0);
    assert(views(out@) + Seq::<Seq<char>>::empty() =~= views(out@));
    out
}

/// Format a validation error as a short message naming the tool, the kind
/// of problem and the schema's required fields.
pub fn format_validation_error(tool_name: &str, error: &str, schema: &JsonValue) -> (r: String)
    ensures
        r@ == validation_error_text(tool_name@, error@, *schema),
{
    let required: Vec<Vec<char>> = match schema_lookup_exec(schema, "properties") {
        None => Vec::new(),
        Some(_) => match schema_lookup_exec(schema, "required") {
            Some(JsonValue::Array(a)) => string_items_exec(a),
            _ => Vec::new(),
        },
    };
    assert(views(required@) == required_fields(*schema));
    let err = chars_of(error);
    let missing = chars_of("missing");
    let req_word = chars_of("required");
    let type_word = chars_of("type");
    let expected = chars_of("expected");
    let mut issue: Vec<char> = Vec::new();
    if contains_exec(&err, &missing) || contains_exec(&err, &req_word) {
        append_str(&mut issue, "missing required field(s)");
    } else if contains_exec(&err, &type_word) || contains_exec(&err, &expected) {
        append_str(&mut issue, "wrong type for field(s)");
    } else {
        let lines = lines_vec(&err);
        if lines.len() > 0 {
            append_chars(&mut issue, &lines[0]);
        } else {
            append_chars(&mut issue, &err);
        }
    }
    assert(issue@ == specific_issue(error@));
    let mut out: Vec<char> = Vec::new();
    append_str(&mut out, "Invalid arguments for tool '");
    append_str(&mut out, tool_name);
    append_str(&mut out, "': ");
    append_chars(&mut out, &issue);
    if required.len() == 0 {
        append_str(&mut out, ". See tool description for usage.");
    } else {
        append_str(&mut out, ". Required fields: [");
        let sep = chars_of(", ");
        let listed = join_vec(&required, &sep);
        append_chars(&mut out, &listed);
        append_str(&mut out, "]. See tool description for usage.");
    }
    string_of(&out)
}

/// After registering `(name, description)`, names are still unique, the
/// tool is found under `name` with that description, and every tool of
/// another name keeps its entry.
pub proof fn lemma_register_then_get(v: Seq<(Seq<char>, Seq<char>)>, name: Seq<char>, description: Seq<char>)
    requires
        unique_names(v),
    ensures
        unique_names(registered(v, name, description)),
        has_name(registered(v, name, description), name),
        forall|i: int|
            0 <= i < registered(v, name, description).len() && #[trigger] registered(v, name, description)[i].0
                == name ==> registered(v, name, description)[i].1 == description,
        forall|j: int| 0 <= j < v.len() && v[j].0 != name ==> registered(v, name, description).contains(#[trigger] v[j]),
{
    let r = registered(v, name, description);
    if has_name(v, name) {
        let k = name_index(v, name);
        assert(r[k] == (name, description));
        assert forall|j: int| 0 <= j < v.len() && v[j].0 != name implies r.contains(#[trigger] v[j]) by {
            assert(r[j] == v[j]);
        }
    } else {
        assert(r[v.len() as int] == (name, description));
        assert forall|i: int, j: int| 0 <= i < j < r.len() implies r[i].0 != r[j].0 by {
            if j == v.len() {
                assert(r[i] == v[i]);
            }
        }
        assert forall|j: int| 0 <= j < v.len() && v[j].0 != name implies r.contains(#[trigger] v[j]) by {
            assert(r[j] == v[j]);
        }
    }
}

} // verus!

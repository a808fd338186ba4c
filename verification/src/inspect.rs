//! Reading and changing variables: conversations with the adapter, each a
//! function of the replies so far.

use vstd::prelude::*;
use crate::dap::{ask, asking, exchange, Ask, Request, Step, Turn};
use crate::json::{docs, no_keys, Doc, Json};
use crate::num::{i64_value, int_text, read_i64, show_int};
use crate::render::{short_type, short_type_of};
use crate::session::{opt_text, Session, SessionModel};
use crate::stack::{frames, StopModel};
use crate::state::frame_of;
use crate::text::{
    before_suffix, begins, chars_of, contains, debug_text, either, has_text, lemma_strip_end,
    lemma_strip_start, lemma_trim_around, lower_all, lowered, occurs_at, owned, same, show_debug, strip,
    strip_of, text_of, trim, trimmed, views, white,
};

verus! {

// ---------------------------------------------------------------------------
// Paths
// ---------------------------------------------------------------------------

/// Behind the bracket that closes the one at `i`; the end where none does.
pub open spec fn bracket_end(s: Seq<char>, i: int) -> int
    decreases s.len() - i,
{
    if i < 0 || i >= s.len() {
        s.len() as int
    } else if s[i] == ']' {
        i + 1
    } else {
        bracket_end(s, i + 1)
    }
}

/// The next point or bracket from `i` on, or the end.
pub open spec fn word_end(s: Seq<char>, i: int) -> int
    decreases s.len() - i,
{
    if i < 0 || i >= s.len() || s[i] == '.' || s[i] == '[' {
        i
    } else {
        word_end(s, i + 1)
    }
}

/// The parts of a variable path from `i` on.
pub open spec fn path_parts(s: Seq<char>, i: int) -> Seq<Seq<char>>
    decreases s.len() - i,
{
    if i < 0 || i >= s.len() {
        Seq::empty()
    } else if s[i] == '.' {
        path_parts(s, i + 1)
    } else {
        let e = if s[i] == '[' {
            bracket_end(s, i)
        } else {
            word_end(s, i)
        };
        if e <= i || e > s.len() {
            Seq::empty()
        } else {
            seq![s.subrange(i, e)] + path_parts(s, e)
        }
    }
}

proof fn lemma_bracket_end(s: Seq<char>, i: int)
    requires
        0 <= i < s.len(),
    ensures
        i < bracket_end(s, i) <= s.len(),
    decreases s.len() - i,
{
    if s[i] != ']' {
        if i + 1 < s.len() {
            lemma_bracket_end(s, i + 1);
        } else {
            assert(bracket_end(s, i + 1) == s.len());
        }
    }
}

proof fn lemma_word_end(s: Seq<char>, i: int)
    requires
        0 <= i <= s.len(),
    ensures
        i <= word_end(s, i) <= s.len(),
        i < s.len() && s[i] != '.' && s[i] != '[' ==> i < word_end(s, i),
    decreases s.len() - i,
{
    if i < s.len() && s[i] != '.' && s[i] != '[' {
        lemma_word_end(s, i + 1);
    }
}

/// Split `items[0].qty` into `["items", "[0]", "qty"]` — Vec/array children are
/// named `[0]` in the DAP variables tree, so set/watch work on indexed paths.
pub fn tokenize_path(path: &str) -> (r: Vec<String>)
    ensures
        views(r@) == path_parts(path@, 0),
{
    let v = chars_of(path);
    let mut out: Vec<String> = Vec::new();
    let mut i: usize = 0;
    assert(views(out@) + path_parts(path@, 0) =~= path_parts(path@, 0));
    while i < v.len()
        invariant
            v@ == path@,
            i <= v.len(),
            path_parts(path@, 0) == views(out@) + path_parts(path@, i as int),
        decreases v.len() - i,
    {
        if v[i] == '.' {
            i += 1;
        } else {
            let start: usize = i;
            let bracket = v[i] == '[';
            let ghost e = if bracket {
                bracket_end(path@, start as int)
            } else {
                word_end(path@, start as int)
            };
            proof {
                if bracket {
                    lemma_bracket_end(path@, start as int);
                } else {
                    lemma_word_end(path@, start as int);
                }
            }
            if bracket {
                while i < v.len() && v[i] != ']'
                    invariant
                        v@ == path@,
                        start <= i <= v.len(),
                        e == bracket_end(path@, i as int),
                    decreases v.len() - i,
                {
                    i += 1;
                }
                if i < v.len() {
                    i += 1;  // include ']'
                }
            } else {
                while i < v.len() && v[i] != '.' && v[i] != '['
                    invariant
                        v@ == path@,
                        start <= i <= v.len(),
                        e == word_end(path@, i as int),
                    decreases v.len() - i,
                {
                    i += 1;
                }
            }
            assert(i == e);
            let ghost before = views(out@);
            let part = text_of(&v, start, i);
            let ghost t = part@;
            assert(t == path@.subrange(start as int, e));
            out.push(part);
            assert(views(out@) =~= before.push(t));
            assert(before + (seq![t] + path_parts(path@, e)) =~= views(out@) + path_parts(
                path@,
                e,
            ));
        }
    }
    assert(path_parts(path@, v@.len() as int) =~= Seq::empty());
    assert(views(out@) + Seq::<Seq<char>>::empty() =~= views(out@));
    out
}

// ---------------------------------------------------------------------------
// Variables in replies
// ---------------------------------------------------------------------------

/// The first value from `i` on whose name is the one given.
pub open spec fn named(a: Seq<Doc>, name: Seq<char>, i: int) -> Option<Doc>
    decreases a.len() - i,
{
    if i < 0 || i >= a.len() {
        None
    } else if a[i].at("name"@).text() == Some(name) {
        Some(a[i])
    } else {
        named(a, name, i + 1)
    }
}

/// The variables in the reply to a `variables` request.
pub open spec fn vars_in(reply: Doc) -> Seq<Doc> {
    reply.at("body"@).at("variables"@).items()
}

/// The variable with a name in the reply to a `variables` request.
pub open spec fn var_in(reply: Doc, name: Seq<char>) -> Option<Doc> {
    named(vars_in(reply), name, 0)
}

fn find_named<'a>(a: &'a Vec<Json>, name: &str) -> (r: Option<&'a Json>)
    ensures
        match r {
            Some(j) => named(docs(a@), name@, 0) == Some(j@),
            None => named(docs(a@), name@, 0) is None,
        },
{
    let mut i: usize = 0;
    while i < a.len()
        invariant
            i <= a.len(),
            named(docs(a@), name@, 0) == named(docs(a@), name@, i as int),
        decreases a.len() - i,
    {
        assert(docs(a@)[i as int] == a@[i as int]@);
        let found = match a[i].at("name").as_str() {
            Some(n) => same(n, name),
            None => false,
        };
        if found {
            return Some(&a[i]);
        }
        i += 1;
    }
    None
}

fn find_var<'a>(reply: &'a Json, name: &str) -> (r: Option<&'a Json>)
    ensures
        match r {
            Some(j) => var_in(reply@, name@) == Some(j@),
            None => var_in(reply@, name@) is None,
        },
{
    match reply.at("body").at("variables").as_array() {
        Some(a) => find_named(a, name),
        None => None,
    }
}

/// A scope of local variables.
pub open spec fn is_local(scope: Doc) -> bool {
    "local"@.is_prefix_of(lowered(scope.at("name"@).text_or(""@)))
}

/// The first scope of local variables from `i` on.
pub open spec fn local_scope(a: Seq<Doc>, i: int) -> Option<Doc>
    decreases a.len() - i,
{
    if i < 0 || i >= a.len() {
        None
    } else if is_local(a[i]) {
        Some(a[i])
    } else {
        local_scope(a, i + 1)
    }
}

/// The reference to the local variables in the reply to a `scopes` request;
/// zero where there is none.
pub open spec fn locals_in(reply: Doc) -> int {
    match local_scope(reply.at("body"@).at("scopes"@).items(), 0) {
        Some(s) => s.at("variablesReference"@).int_or(0),
        None => 0,
    }
}

fn read_locals(reply: &Json) -> (r: i64)
    ensures
        r == locals_in(reply@),
{
    match reply.at("body").at("scopes").as_array() {
        Some(a) => {
            let mut i: usize = 0;
            while i < a.len()
                invariant
                    i <= a.len(),
                    local_scope(docs(a@), 0) == local_scope(docs(a@), i as int),
                    docs(a@) == reply@.at("body"@).at("scopes"@).items(),
                decreases a.len() - i,
            {
                assert(docs(a@)[i as int] == a@[i as int]@);
                let name = a[i].at("name").str_or("");
                let low = lower_all(name.as_str());
                if begins(low.as_str(), "local") {
                    return a[i].at("variablesReference").int_or(0);
                }
                i += 1;
            }
            0
        },
        None => 0,
    }
}

// ---------------------------------------------------------------------------
// Requests
// ---------------------------------------------------------------------------

pub open spec fn scopes_ask(frame: int) -> Ask {
    asking("scopes"@, no_keys().with("frameId"@, Doc::Int(frame)), 10)
}

pub open spec fn variables_ask(rref: int) -> Ask {
    asking("variables"@, no_keys().with("variablesReference"@, Doc::Int(rref)), 10)
}

pub open spec fn evaluate_ask(expr: Seq<char>, frame: int, secs: int) -> Ask {
    asking(
        "evaluate"@,
        no_keys().with("expression"@, Doc::Str(expr)).with("frameId"@, Doc::Int(frame)).with(
            "context"@,
            Doc::Str("hover"@),
        ),
        secs,
    )
}

pub open spec fn frames_ask(thread: int) -> Ask {
    asking(
        "stackTrace"@,
        no_keys().with("threadId"@, Doc::Int(thread)).with("levels"@, Doc::Int(40)),
        15,
    )
}

fn ask_scopes(frame: i64) -> (r: Request)
    ensures
        r@ == scopes_ask(frame as int),
{
    Request::new("scopes", Json::obj().with("frameId", Json::number(frame)), 10)
}

/// The request for the variables under a reference.
pub fn ask_variables(rref: i64) -> (r: Request)
    ensures
        r@ == variables_ask(rref as int),
{
    Request::new("variables", Json::obj().with("variablesReference", Json::number(rref)), 10)
}

fn ask_evaluate(expr: &str, frame: i64, secs: u64) -> (r: Request)
    ensures
        r@ == evaluate_ask(expr@, frame as int, secs as int),
{
    Request::new(
        "evaluate",
        Json::obj().with("expression", Json::text(expr)).with("frameId", Json::number(frame)).with(
            "context",
            Json::text("hover"),
        ),
        secs,
    )
}

/// The request for the frames of a thread.
pub fn ask_frames(thread: i64) -> (r: Request)
    ensures
        r@ == frames_ask(thread as int),
{
    Request::new(
        "stackTrace",
        Json::obj().with("threadId", Json::number(thread)).with("levels", Json::number(40)),
        15,
    )
}

// ---------------------------------------------------------------------------
// Finding a variable
// ---------------------------------------------------------------------------

/// The reference to the local variables of the selected frame.
pub open spec fn locals_turn(m: SessionModel, replies: Seq<Doc>, at: int) -> Turn<int> {
    match frame_of(m) {
        None => Turn::Done(0, at),
        Some(f) => match exchange(scopes_ask(f.id), replies, at) {
            Turn::Ask(a) => Turn::Ask(a),
            Turn::Done(d, n) => Turn::Done(locals_in(d), n),
        },
    }
}

/// The reference to the children of a variable that has some.
pub open spec fn child_ref(reply: Doc, name: Seq<char>) -> Option<int> {
    match var_in(reply, name) {
        Some(v) => match v.at("variablesReference"@).int64() {
            Some(r) => if r != 0 {
                Some(r)
            } else {
                None
            },
            None => None,
        },
        None => None,
    }
}

/// Down the tree of variables, from part `k` of a path on, to its last part.
pub open spec fn walk_turn(
    parts: Seq<Seq<char>>,
    k: int,
    rref: int,
    replies: Seq<Doc>,
    at: int,
) -> Turn<Option<(int, Seq<char>)>>
    decreases parts.len() - k,
{
    if k < 0 || k >= parts.len() - 1 {
        Turn::Done(Some((rref, parts.last())), at)
    } else {
        match exchange(variables_ask(rref), replies, at) {
            Turn::Ask(a) => Turn::Ask(a),
            Turn::Done(d, n) => match child_ref(d, parts[k]) {
                Some(r) => walk_turn(parts, k + 1, r, replies, n),
                None => Turn::Done(None, n),
            },
        }
    }
}

/// What holds a variable, and its name in there.
pub open spec fn resolve_turn(
    m: SessionModel,
    path: Seq<char>,
    replies: Seq<Doc>,
    at: int,
) -> Turn<Option<(int, Seq<char>)>> {
    let parts = path_parts(path, 0);
    if parts.len() == 0 {
        Turn::Done(None, at)
    } else {
        match locals_turn(m, replies, at) {
            Turn::Ask(a) => Turn::Ask(a),
            Turn::Done(r, n) => walk_turn(parts, 0, r, replies, n),
        }
    }
}

/// The variable at a path.
pub open spec fn var_turn(
    m: SessionModel,
    path: Seq<char>,
    replies: Seq<Doc>,
    at: int,
) -> Turn<Option<Doc>> {
    match resolve_turn(m, path, replies, at) {
        Turn::Ask(a) => Turn::Ask(a),
        Turn::Done(None, n) => Turn::Done(None, n),
        Turn::Done(Some((rref, leaf)), n) => match exchange(variables_ask(rref), replies, n) {
            Turn::Ask(a) => Turn::Ask(a),
            Turn::Done(d, k) => Turn::Done(var_in(d, leaf), k),
        },
    }
}

pub open spec fn opt_pair(r: Option<(i64, String)>) -> Option<(int, Seq<char>)> {
    match r {
        Some((n, s)) => Some((n as int, s@)),
        None => None,
    }
}

pub open spec fn opt_ref(r: Option<&Json>) -> Option<Doc> {
    match r {
        Some(j) => Some(j@),
        None => None,
    }
}

fn read_child(reply: &Json, name: &str) -> (r: Option<i64>)
    ensures
        match r {
            Some(n) => child_ref(reply@, name@) == Some(n as int),
            None => child_ref(reply@, name@) is None,
        },
{
    match find_var(reply, name) {
        Some(v) => match v.at("variablesReference").as_i64() {
            Some(r) => if r != 0 {
                Some(r)
            } else {
                None
            },
            None => None,
        },
        None => None,
    }
}

impl Session {
    /// The reference to the local variables of the selected frame; zero where
    /// there is none.
    pub fn locals_ref(&self, replies: &Vec<Json>, at: usize) -> (s: Step<i64>)
        requires
            at <= replies.len(),
        ensures
            match s {
                Step::Ask(q) => locals_turn(self@, docs(replies@), at as int) == Turn::<int>::Ask(
                    q@,
                ),
                Step::Done(r, n) => locals_turn(self@, docs(replies@), at as int) == Turn::Done(
                    r as int,
                    n as int,
                ) && at <= n <= replies.len(),
            },
    {
        let f = match self.frame() {
            Some(f) => f,
            None => return Step::Done(0, at),
        };
        match ask(ask_scopes(f.id), replies, at) {
            Step::Ask(q) => Step::Ask(q),
            Step::Done(d, n) => Step::Done(read_locals(d), n),
        }
    }

    /// What holds the variable at a path, and its name in there.
    pub fn resolve_var_ref(&self, path: &str, replies: &Vec<Json>, at: usize) -> (s: Step<
        Option<(i64, String)>,
    >)
        requires
            at <= replies.len(),
        ensures
            match s {
                Step::Ask(q) => resolve_turn(self@, path@, docs(replies@), at as int)
                    == Turn::<Option<(int, Seq<char>)>>::Ask(q@),
                Step::Done(r, n) => resolve_turn(self@, path@, docs(replies@), at as int)
                    == Turn::Done(opt_pair(r), n as int) && at <= n <= replies.len(),
            },
    {
        let parts = tokenize_path(path);
        let ghost texts = views(parts@);
        if parts.len() == 0 {
            return Step::Done(None, at);
        }
        let last: usize = parts.len() - 1;
        let (mut rref, mut pos): (i64, usize) = match self.locals_ref(replies, at) {
            Step::Ask(q) => return Step::Ask(q),
            Step::Done(r, n) => (r, n),
        };
        let mut k: usize = 0;
        while k < last
            invariant
                at <= pos <= replies.len(),
                last == parts.len() - 1,
                k <= last,
                texts == views(parts@),
                resolve_turn(self@, path@, docs(replies@), at as int) == walk_turn(
                    texts,
                    k as int,
                    rref as int,
                    docs(replies@),
                    pos as int,
                ),
            decreases last - k,
        {
            assert(texts[k as int] == parts@[k as int]@);
            match ask(ask_variables(rref), replies, pos) {
                Step::Ask(q) => return Step::Ask(q),
                Step::Done(d, n) => {
                    match read_child(d, parts[k].as_str()) {
                        Some(r) => {
                            rref = r;
                        },
                        None => return Step::Done(None, n),
                    }
                    pos = n;
                },
            }
            k += 1;
        }
        assert(texts.last() == parts@[last as int]@);
        Step::Done(Some((rref, owned(parts[last].as_str()))), pos)
    }

    /// The DAP variable object for a resolved path (with its `type`,
    /// `variablesReference`, and formatter-reported child counts).
    pub fn var_object<'a>(&self, path: &str, replies: &'a Vec<Json>, at: usize) -> (s: Step<
        Option<&'a Json>,
    >)
        requires
            at <= replies.len(),
        ensures
            match s {
                Step::Ask(q) => var_turn(self@, path@, docs(replies@), at as int) == Turn::<
                    Option<Doc>,
                >::Ask(q@),
                Step::Done(r, n) => var_turn(self@, path@, docs(replies@), at as int)
                    == Turn::Done(opt_ref(r), n as int) && at <= n <= replies.len(),
            },
    {
        match self.resolve_var_ref(path, replies, at) {
            Step::Ask(q) => Step::Ask(q),
            Step::Done(None, n) => Step::Done(None, n),
            Step::Done(Some((rref, leaf)), n) => match ask(ask_variables(rref), replies, n) {
                Step::Ask(q) => Step::Ask(q),
                Step::Done(d, k) => Step::Done(find_var(d, leaf.as_str()), k),
            },
        }
    }
}

// ---------------------------------------------------------------------------
// Lengths
// ---------------------------------------------------------------------------

/// The field that holds the length of a container of a type.
pub open spec fn length_name(typ: Seq<char>) -> Option<Seq<char>> {
    if "String"@.is_prefix_of(typ) {
        Some("vec.len"@)
    } else if contains(typ, "str"@) || "&["@.is_prefix_of(typ) || "["@.is_prefix_of(typ) {
        Some("length"@)
    } else if "Vec"@.is_prefix_of(typ) || contains(typ, "VecDeque"@) {
        Some("len"@)
    } else {
        None
    }
}

/// The length that a variable object itself reports.
pub open spec fn reported_length(v: Doc) -> Option<int> {
    let typ = short_type_of(v.at("type"@).text_or(""@));
    match v.at("indexedVariables"@).int64() {
        Some(n) => Some(n),
        None => if contains(typ, "Map"@) || contains(typ, "Set"@) {
            v.at("namedVariables"@).int64()
        } else {
            None
        },
    }
}

/// The number in the reply to an `evaluate` request.
pub open spec fn number_in(reply: Doc) -> Option<int> {
    if reply.at("success"@).bool_or(false) {
        match reply.at("body"@).at("result"@).text() {
            Some(s) => i64_value(trimmed(s)),
            None => None,
        }
    } else {
        None
    }
}

/// The length of the container at a path.
pub open spec fn length_turn(
    m: SessionModel,
    recv: Seq<char>,
    replies: Seq<Doc>,
    at: int,
) -> Turn<Option<int>> {
    match var_turn(m, recv, replies, at) {
        Turn::Ask(a) => Turn::Ask(a),
        Turn::Done(None, n) => Turn::Done(None, n),
        Turn::Done(Some(v), n) => match reported_length(v) {
            Some(k) => Turn::Done(Some(k), n),
            None => match length_name(short_type_of(v.at("type"@).text_or(""@))) {
                None => Turn::Done(None, n),
                Some(field) => match frame_of(m) {
                    None => Turn::Done(None, n),
                    Some(f) => match exchange(
                        evaluate_ask("/nat "@ + recv + "."@ + field, f.id, 10),
                        replies,
                        n,
                    ) {
                        Turn::Ask(a) => Turn::Ask(a),
                        Turn::Done(d, k) => Turn::Done(number_in(d), k),
                    },
                },
            },
        },
    }
}

fn length_of_type(typ: &str) -> (r: Option<&'static str>)
    ensures
        match r {
            Some(f) => length_name(typ@) == Some(f@),
            None => length_name(typ@) is None,
        },
{
    if begins(typ, "String") {
        Some("vec.len")
    } else if has_text(typ, "str") || begins(typ, "&[") || begins(typ, "[") {
        Some("length")
    } else if begins(typ, "Vec") || has_text(typ, "VecDeque") {
        Some("len")
    } else {
        None
    }
}

fn read_number(reply: &Json) -> (r: Option<i64>)
    ensures
        match r {
            Some(n) => number_in(reply@) == Some(n as int),
            None => number_in(reply@) is None,
        },
{
    if reply.at("success").bool_or(false) {
        match reply.at("body").at("result").as_str() {
            Some(s) => {
                let t = trim(s);
                read_i64(t.as_str())
            },
            None => None,
        }
    } else {
        None
    }
}

impl Session {
    /// The element count of a std container at `recv` — for `.len()` /
    /// `.is_empty()` eval — resolved WITHOUT executing any code. Prefers the
    /// count the Rust data formatter already computed (`indexedVariables`, set
    /// for Vec/slice/VecDeque/map/set); falls back to reading the raw length
    /// field via the native evaluator for `String`/`&str`/slices (codelldb
    /// only). `None` if `recv` isn't a length-bearing container, so `eval` can
    /// fall through to its normal path.
    pub fn container_len(&self, recv: &str, replies: &Vec<Json>, at: usize) -> (s: Step<
        Option<i64>,
    >)
        requires
            at <= replies.len(),
        ensures
            match s {
                Step::Ask(q) => length_turn(self@, recv@, docs(replies@), at as int) == Turn::<
                    Option<int>,
                >::Ask(q@),
                Step::Done(r, n) => length_turn(self@, recv@, docs(replies@), at as int)
                    == Turn::Done(crate::stack::opt_int(r), n as int) && at <= n <= replies.len(),
            },
    {
        let (v, n): (&Json, usize) = match self.var_object(recv, replies, at) {
            Step::Ask(q) => return Step::Ask(q),
            Step::Done(None, n) => return Step::Done(None, n),
            Step::Done(Some(v), n) => (v, n),
        };
        // Vec/slice/VecDeque: the formatter reports the element count directly.
        if let Some(k) = v.at("indexedVariables").as_i64() {
            return Step::Done(Some(k), n);
        }
        let full = v.at("type").str_or("");
        let typ = short_type(full.as_str());
        // HashMap/BTreeMap/HashSet/BTreeSet: the formatter shows entries as named
        // children, so the entry count is `namedVariables`.
        if has_text(typ.as_str(), "Map") || has_text(typ.as_str(), "Set") {
            if let Some(k) = v.at("namedVariables").as_i64() {
                return Step::Done(Some(k), n);
            }
        }
        let field = match length_of_type(typ.as_str()) {
            Some(f) => f,
            None => return Step::Done(None, n),
        };
        let f = match self.frame() {
            Some(f) => f,
            None => return Step::Done(None, n),
        };
        // `/nat` forces codelldb's native evaluator, which reads the raw struct field
        // past the synthetic formatter; harmless-and-fails on plain lldb-dap.
        let mut expr = String::from_str("/nat ");
        expr.append(recv);
        expr.append(".");
        expr.append(field);
        match ask(ask_evaluate(expr.as_str(), f.id, 10), replies, n) {
            Step::Ask(q) => Step::Ask(q),
            Step::Done(d, k) => Step::Done(read_number(d), k),
        }
    }
}

// ---------------------------------------------------------------------------
// Evaluating
// ---------------------------------------------------------------------------

/// The receiver of a call with that ending.
pub open spec fn receiver(e: Seq<char>, call: Seq<char>) -> Option<Seq<char>> {
    if call.is_suffix_of(e) {
        Some(trimmed(e.take(e.len() - call.len())))
    } else {
        None
    }
}

/// The value of `.len()` or `.is_empty()` on a container; `None` where the
/// expression is no such call, or the length is not known.
pub open spec fn counted_turn(
    m: SessionModel,
    e: Seq<char>,
    replies: Seq<Doc>,
    at: int,
) -> Turn<Option<Seq<char>>> {
    match receiver(e, ".len()"@) {
        Some(recv) => match length_turn(m, recv, replies, at) {
            Turn::Ask(a) => Turn::Ask(a),
            Turn::Done(Some(k), n) => Turn::Done(Some("usize = "@ + int_text(k)), n),
            Turn::Done(None, n) => Turn::Done(None, n),
        },
        None => match receiver(e, ".is_empty()"@) {
            Some(recv) => match length_turn(m, recv, replies, at) {
                Turn::Ask(a) => Turn::Ask(a),
                Turn::Done(Some(k), n) => Turn::Done(
                    Some(
                        "bool = "@ + (if k == 0 {
                            "true"@
                        } else {
                            "false"@
                        }),
                    ),
                    n,
                ),
                Turn::Done(None, n) => Turn::Done(None, n),
            },
            None => Turn::Done(None, at),
        },
    }
}

/// `type = value`, without blanks and equal signs around it.
pub open spec fn typed_value(typ: Seq<char>, value: Seq<char>) -> Seq<char> {
    strip(typ + " = "@ + value, either(' ', '='))
}

/// What the tree of variables shows of a variable; `None` where it shows
/// nothing.
pub open spec fn var_shown(v: Doc) -> Option<Seq<char>> {
    let typ = short_type_of(v.at("type"@).text_or(""@));
    let val = v.at("value"@).text_or(""@);
    if val.len() > 0 {
        Some(typed_value(typ, val))
    } else if typ.len() > 0 {
        Some(typ)
    } else {
        None
    }
}

/// The value that the tree of variables shows at a path.
pub open spec fn tree_turn(
    m: SessionModel,
    e: Seq<char>,
    replies: Seq<Doc>,
    at: int,
) -> Turn<Option<Seq<char>>> {
    match var_turn(m, e, replies, at) {
        Turn::Ask(a) => Turn::Ask(a),
        Turn::Done(Some(v), n) => Turn::Done(var_shown(v), n),
        Turn::Done(None, n) => Turn::Done(None, n),
    }
}

/// Why an expression could not be evaluated.
pub open spec fn hint_for(adapter: Seq<char>, e: Seq<char>) -> Seq<char> {
    let is_call = contains(e, "("@);
    let is_expr = is_call || contains(e, "=="@) || contains(e, "!="@) || contains(e, "&&"@)
        || contains(e, "||"@) || contains(e, "->"@);
    if contains(adapter, "codelldb"@) {
        if is_call {
            "codelldb/lldb can't call an arbitrary Rust method (no Rust codegen) — `.len()`/`.is_empty()` do work; for others, break inside the method or eval its inputs."@
        } else {
            "not evaluable in this frame — check the path with `rdbg vars` (it may be a computed value or out of scope)."@
        }
    } else if is_expr {
        "eval takes a variable PATH (e.g. `source.params[0].ty`), not an expression here — break where the value is computed and inspect its inputs. codelldb (rdbg's install.sh sets it up) adds comparison/arithmetic/field-access eval (not method calls — lldb can't run Rust code)."@
    } else {
        "not a resolvable path in this frame — run `rdbg vars` to see what's in scope (it may be a computed value, not a local). codelldb adds comparison/arithmetic/field-access eval."@
    }
}

/// What the reply to an `evaluate` request says.
pub open spec fn evaluated(adapter: Seq<char>, e: Seq<char>, reply: Doc) -> Seq<char> {
    if reply.at("success"@).bool_or(false) {
        typed_value(
            short_type_of(reply.at("body"@).at("type"@).text_or(""@)),
            reply.at("body"@).at("result"@).text_or(""@),
        )
    } else {
        "(cannot evaluate "@ + debug_text(e) + ": "@ + hint_for(adapter, e) + ")"@
    }
}

/// The value of an expression: a container's length, else what the tree of
/// variables shows, else what the adapter evaluates it to.
pub open spec fn evaluate_turn(
    m: SessionModel,
    expr: Seq<char>,
    replies: Seq<Doc>,
    at: int,
) -> Turn<Seq<char>> {
    let e = trimmed(expr);
    match counted_turn(m, e, replies, at) {
        Turn::Ask(a) => Turn::Ask(a),
        Turn::Done(Some(t), n) => Turn::Done(t, n),
        Turn::Done(None, n) => match tree_turn(m, e, replies, n) {
            Turn::Ask(a) => Turn::Ask(a),
            Turn::Done(Some(t), k) => Turn::Done(t, k),
            Turn::Done(None, k) => match frame_of(m) {
                None => Turn::Done("(not stopped)"@, k),
                Some(f) => match exchange(evaluate_ask(e, f.id, 15), replies, k) {
                    Turn::Ask(a) => Turn::Ask(a),
                    Turn::Done(d, j) => Turn::Done(evaluated(m.adapter, e, d), j),
                },
            },
        },
    }
}

fn show_typed(typ: &str, value: &str) -> (r: String)
    ensures
        r@ == typed_value(typ@, value@),
{
    let mut t = owned(typ);
    t.append(" = ");
    t.append(value);
    strip_of(t.as_str(), ' ', '=')
}

fn hint(adapter: &str, e: &str) -> (r: &'static str)
    ensures
        r@ == hint_for(adapter@, e@),
{
    let is_call = has_text(e, "(");
    let is_expr = is_call || has_text(e, "==") || has_text(e, "!=") || has_text(e, "&&")
        || has_text(e, "||") || has_text(e, "->");
    if has_text(adapter, "codelldb") {
        if is_call {
            "codelldb/lldb can't call an arbitrary Rust method (no Rust codegen) — `.len()`/`.is_empty()` do work; for others, break inside the method or eval its inputs."
        } else {
            "not evaluable in this frame — check the path with `rdbg vars` (it may be a computed value or out of scope)."
        }
    } else if is_expr {
        "eval takes a variable PATH (e.g. `source.params[0].ty`), not an expression here — break where the value is computed and inspect its inputs. codelldb (rdbg's install.sh sets it up) adds comparison/arithmetic/field-access eval (not method calls — lldb can't run Rust code)."
    } else {
        "not a resolvable path in this frame — run `rdbg vars` to see what's in scope (it may be a computed value, not a local). codelldb adds comparison/arithmetic/field-access eval."
    }
}

fn show_var(v: &Json) -> (r: Option<String>)
    ensures
        match r {
            Some(t) => var_shown(v@) == Some(t@),
            None => var_shown(v@) is None,
        },
{
    let full = v.at("type").str_or("");
    let typ = short_type(full.as_str());
    let val = v.at("value").str_or("");
    if !val.as_str().is_empty() {
        return Some(show_typed(typ.as_str(), val.as_str()));
    }
    if !typ.as_str().is_empty() {
        return Some(typ);
    }
    None
}

impl Session {
    fn counted(&self, e: &str, replies: &Vec<Json>, at: usize) -> (s: Step<Option<String>>)
        requires
            at <= replies.len(),
        ensures
            match s {
                Step::Ask(q) => counted_turn(self@, e@, docs(replies@), at as int) == Turn::<
                    Option<Seq<char>>,
                >::Ask(q@),
                Step::Done(r, n) => counted_turn(self@, e@, docs(replies@), at as int)
                    == Turn::Done(opt_text(r), n as int) && at <= n <= replies.len(),
            },
    {
        if let Some(recv) = before_suffix(e, ".len()") {
            let recv = trim(recv.as_str());
            return match self.container_len(recv.as_str(), replies, at) {
                Step::Ask(q) => Step::Ask(q),
                Step::Done(Some(k), n) => {
                    let mut r = String::from_str("usize = ");
                    let t = show_int(k);
                    r.append(t.as_str());
                    Step::Done(Some(r), n)
                },
                Step::Done(None, n) => Step::Done(None, n),
            };
        }
        if let Some(recv) = before_suffix(e, ".is_empty()") {
            let recv = trim(recv.as_str());
            return match self.container_len(recv.as_str(), replies, at) {
                Step::Ask(q) => Step::Ask(q),
                Step::Done(Some(k), n) => {
                    let mut r = String::from_str("bool = ");
                    if k == 0 {
                        r.append("true");
                    } else {
                        r.append("false");
                    }
                    Step::Done(Some(r), n)
                },
                Step::Done(None, n) => Step::Done(None, n),
            };
        }
        Step::Done(None, at)
    }

    /// The value of an expression at the selected frame. `.len()` and
    /// `.is_empty()` on a std container are answered from the element count the
    /// Rust data formatter already computed. Then the variables tree is
    /// preferred: it auto-derefs `&references` and renders Rust aggregates,
    /// where lldb's expression evaluator rejects `.` on a pointer (`it.qty` on a
    /// `&Item`). The evaluator is for what the tree walk can't resolve.
    pub fn evaluate(&self, expr: &str, replies: &Vec<Json>, at: usize) -> (s: Step<String>)
        requires
            at <= replies.len(),
        ensures
            match s {
                Step::Ask(q) => evaluate_turn(self@, expr@, docs(replies@), at as int) == Turn::<
                    Seq<char>,
                >::Ask(q@),
                Step::Done(r, n) => evaluate_turn(self@, expr@, docs(replies@), at as int)
                    == Turn::Done(r@, n as int) && at <= n <= replies.len(),
            },
    {
        let e = trim(expr);
        let n: usize = match self.counted(e.as_str(), replies, at) {
            Step::Ask(q) => return Step::Ask(q),
            Step::Done(Some(t), n) => return Step::Done(t, n),
            Step::Done(None, n) => n,
        };
        let k: usize = match self.var_object(e.as_str(), replies, n) {
            Step::Ask(q) => return Step::Ask(q),
            Step::Done(Some(v), k) => {
                if let Some(t) = show_var(v) {
                    return Step::Done(t, k);
                }
                k
            },
            Step::Done(None, k) => k,
        };
        let f = match self.frame() {
            Some(f) => f,
            None => return Step::Done(owned("(not stopped)"), k),
        };
        match ask(ask_evaluate(e.as_str(), f.id, 15), replies, k) {
            Step::Ask(q) => Step::Ask(q),
            Step::Done(d, j) => {
                if !d.at("success").bool_or(false) {
                    let mut r = String::from_str("(cannot evaluate ");
                    let q = show_debug(e.as_str());
                    r.append(q.as_str());
                    r.append(": ");
                    r.append(hint(self.adapter.as_str(), e.as_str()));
                    r.append(")");
                    return Step::Done(r, j);
                }
                let full = d.at("body").at("type").str_or("");
                let typ = short_type(full.as_str());
                let result = d.at("body").at("result").str_or("");
                Step::Done(show_typed(typ.as_str(), result.as_str()), j)
            },
        }
    }
}

// ---------------------------------------------------------------------------
// What a path leads to
// ---------------------------------------------------------------------------

/// Every bracket that a text opens is closed behind it.
pub open spec fn brackets_closed(s: Seq<char>) -> bool {
    forall|i: int| #![trigger s[i]]
        0 <= i < s.len() && s[i] == '[' ==> exists|j: int| i < j < s.len() && #[trigger] s[j] == ']'
}

proof fn lemma_bracket_end_in(s: Seq<char>, t: Seq<char>, i: int, j: int)
    requires
        0 <= i <= j < s.len(),
        s[j] == ']',
    ensures
        bracket_end(s + t, i) == bracket_end(s, i),
        bracket_end(s, i) <= j + 1,
    decreases j - i,
{
    assert((s + t)[i] == s[i]);
    if s[i] != ']' {
        lemma_bracket_end_in(s, t, i + 1, j);
    }
}

proof fn lemma_word_end_in(s: Seq<char>, t: Seq<char>, i: int)
    requires
        0 <= i <= s.len(),
        t.len() > 0,
        t[0] == '.' || t[0] == '[',
    ensures
        word_end(s + t, i) == word_end(s, i),
    decreases s.len() - i,
{
    if i < s.len() {
        assert((s + t)[i] == s[i]);
        if s[i] != '.' && s[i] != '[' {
            lemma_word_end_in(s, t, i + 1);
        }
    } else {
        assert((s + t)[i] == t[0]);
    }
}

proof fn lemma_parts_in(s: Seq<char>, t: Seq<char>, i: int)
    requires
        0 <= i <= s.len(),
        brackets_closed(s),
        t.len() > 0,
        t[0] == '.' || t[0] == '[',
    ensures
        path_parts(s + t, i) == path_parts(s, i) + path_parts(s + t, s.len() as int),
    decreases s.len() - i,
{
    let w = s + t;
    if i < s.len() {
        assert(w[i] == s[i]);
        if s[i] == '.' {
            lemma_parts_in(s, t, i + 1);
        } else {
            if s[i] == '[' {
                let j = choose|j: int| i < j < s.len() && #[trigger] s[j] == ']';
                lemma_bracket_end_in(s, t, i, j);
                lemma_bracket_end(s, i);
            } else {
                lemma_word_end_in(s, t, i);
                lemma_word_end(s, i);
            }
            let e = if s[i] == '[' {
                bracket_end(s, i)
            } else {
                word_end(s, i)
            };
            assert(i < e <= s.len());
            lemma_parts_in(s, t, e);
            assert(w.subrange(i, e) =~= s.subrange(i, e));
            assert(path_parts(w, i) == seq![s.subrange(i, e)] + path_parts(w, e));
            assert(path_parts(s, i) == seq![s.subrange(i, e)] + path_parts(s, e));
            assert(seq![s.subrange(i, e)] + (path_parts(s, e) + path_parts(w, s.len() as int))
                =~= (seq![s.subrange(i, e)] + path_parts(s, e)) + path_parts(w, s.len() as int));
        }
    } else {
        assert(path_parts(s, i) =~= Seq::<Seq<char>>::empty());
        assert(Seq::<Seq<char>>::empty() + path_parts(w, i) =~= path_parts(w, i));
    }
}

proof fn lemma_word_is_whole(s: Seq<char>, from: int, i: int)
    requires
        0 <= from <= i <= s.len(),
        forall|k: int| from <= k < s.len() ==> #[trigger] s[k] != '.' && s[k] != '[',
    ensures
        word_end(s, i) == s.len(),
    decreases s.len() - i,
{
    if i < s.len() {
        lemma_word_is_whole(s, from, i + 1);
    }
}

proof fn lemma_bracket_is_whole(s: Seq<char>, i: int)
    requires
        0 <= i < s.len(),
        s.last() == ']',
        forall|k: int| i <= k < s.len() - 1 ==> #[trigger] s[k] != ']',
    ensures
        bracket_end(s, i) == s.len(),
    decreases s.len() - i,
{
    if i < s.len() - 1 {
        lemma_bracket_is_whole(s, i + 1);
    }
}

/// A field behind a path is one part more, its name; an index is one part
/// more, with its brackets; and a name alone is its only part. No point is
/// part of a part that is no index.
pub proof fn paths_are_split_at_points_and_brackets(
    path: Seq<char>,
    name: Seq<char>,
    index: Seq<char>,
)
    requires
        brackets_closed(path),
        name.len() > 0,
        forall|k: int| 0 <= k < name.len() ==> #[trigger] name[k] != '.' && name[k] != '[',
        forall|k: int| 0 <= k < index.len() ==> #[trigger] index[k] != ']',
    ensures
        path_parts(name, 0) == seq![name],
        path_parts(Seq::empty(), 0) == Seq::<Seq<char>>::empty(),
        path_parts(path + (seq!['.'] + name), 0) == path_parts(path, 0).push(name),
        path_parts(path + (seq!['['] + index + seq![']']), 0) == path_parts(path, 0).push(
            seq!['['] + index + seq![']'],
        ),
{
    lemma_word_is_whole(name, 0, 0);
    assert(name.subrange(0, name.len() as int) =~= name);
    assert(path_parts(name, name.len() as int) =~= Seq::<Seq<char>>::empty());
    assert(path_parts(name, 0) =~= seq![name]);
    let n = path.len() as int;
    let field = seq!['.'] + name;
    let a = path + field;
    lemma_parts_in(path, field, 0);
    assert(a[n] == '.');
    assert forall|k: int| n + 1 <= k < a.len() implies #[trigger] a[k] != '.' && a[k] != '[' by {
        assert(a[k] == name[k - n - 1]);
    }
    lemma_word_is_whole(a, n + 1, n + 1);
    assert(a[n + 1] == name[0]);
    assert(a.subrange(n + 1, a.len() as int) =~= name);
    assert(path_parts(a, a.len() as int) =~= Seq::<Seq<char>>::empty());
    assert(path_parts(a, n + 1) =~= seq![name]);
    assert(path_parts(a, 0) =~= path_parts(path, 0).push(name));
    let at = seq!['['] + index + seq![']'];
    let b = path + at;
    lemma_parts_in(path, at, 0);
    assert(b[n] == '[');
    assert forall|k: int| n <= k < b.len() - 1 implies #[trigger] b[k] != ']' by {
        if k > n {
            assert(b[k] == index[k - n - 1]);
        }
    }
    lemma_bracket_is_whole(b, n);
    assert(b.subrange(n, b.len() as int) =~= at);
    assert(path_parts(b, b.len() as int) =~= Seq::<Seq<char>>::empty());
    assert(path_parts(b, n) =~= seq![at]);
    assert(path_parts(b, 0) =~= path_parts(path, 0).push(at));
}

/// `v` is the first variable of that name that a reply to a `variables`
/// request holds.
pub open spec fn first_named(reply: Doc, name: Seq<char>, v: Doc) -> bool {
    let vars = reply.at("body"@).at("variables"@).items();
    exists|j: int|
        {
            &&& 0 <= j < vars.len()
            &&& #[trigger] vars[j] == v
            &&& v.at("name"@) == Doc::Str(name)
            &&& forall|i: int| 0 <= i < j ==> (#[trigger] vars[i]).at("name"@) != Doc::Str(name)
        }
}

/// A reply to a `variables` request holds no variable of that name.
pub open spec fn none_named(reply: Doc, name: Seq<char>) -> bool {
    let vars = reply.at("body"@).at("variables"@).items();
    forall|i: int| 0 <= i < vars.len() ==> (#[trigger] vars[i]).at("name"@) != Doc::Str(name)
}

/// `r` is the reference to the local variables in a reply to a `scopes`
/// request: that of the first scope whose name begins with "local", in upper
/// or lower case.
pub open spec fn refers_to_locals(reply: Doc, r: int) -> bool {
    let scopes = reply.at("body"@).at("scopes"@).items();
    exists|j: int|
        {
            &&& 0 <= j < scopes.len()
            &&& "local"@.is_prefix_of(lowered((#[trigger] scopes[j]).at("name"@).text_or(""@)))
            &&& scopes[j].at("variablesReference"@) == Doc::Int(r)
            &&& i64::MIN <= r <= i64::MAX
            &&& forall|i: int|
                0 <= i < j ==> !"local"@.is_prefix_of(
                    lowered((#[trigger] scopes[i]).at("name"@).text_or(""@)),
                )
        }
}

/// `r` is the reference to the children of the variable of that name in a
/// reply to a `variables` request.
pub open spec fn has_child(reply: Doc, name: Seq<char>, r: int) -> bool {
    &&& r != 0
    &&& i64::MIN <= r <= i64::MAX
    &&& exists|v: Doc| #[trigger]
        first_named(reply, name, v) && v.at("variablesReference"@) == Doc::Int(r)
}

/// Each reference but the first is that of the children of the variable whose
/// name is the part before it, in the reply to the request for what lies under
/// the reference before it.
pub open spec fn leads_down(
    parts: Seq<Seq<char>>,
    refs: Seq<int>,
    replies: Seq<Doc>,
    at: int,
) -> bool {
    forall|k: int|
        1 <= k < refs.len() ==> has_child(replies[at + k - 1], parts[k - 1], #[trigger] refs[k])
}

proof fn lemma_named(a: Seq<Doc>, name: Seq<char>, i: int)
    requires
        0 <= i <= a.len(),
    ensures
        match named(a, name, i) {
            Some(v) => exists|j: int|
                {
                    &&& i <= j < a.len()
                    &&& #[trigger] a[j] == v
                    &&& v.at("name"@) == Doc::Str(name)
                    &&& forall|k: int| i <= k < j ==> (#[trigger] a[k]).at("name"@) != Doc::Str(name)
                },
            None => forall|k: int|
                i <= k < a.len() ==> (#[trigger] a[k]).at("name"@) != Doc::Str(name),
        },
    decreases a.len() - i,
{
    if i < a.len() {
        if a[i].at("name"@) == Doc::Str(name) {
            assert(a[i] == a[i]);
        } else {
            lemma_named(a, name, i + 1);
            if let Some(v) = named(a, name, i + 1) {
                let j = choose|j: int|
                    {
                        &&& i + 1 <= j < a.len()
                        &&& #[trigger] a[j] == v
                        &&& v.at("name"@) == Doc::Str(name)
                        &&& forall|k: int|
                            i + 1 <= k < j ==> (#[trigger] a[k]).at("name"@) != Doc::Str(name)
                    };
                assert(a[j] == v);
            }
        }
    }
}

/// A variable is found by its name, and the first of that name is the one.
pub proof fn a_variable_is_found_by_its_name(reply: Doc, name: Seq<char>)
    ensures
        match var_in(reply, name) {
            Some(v) => first_named(reply, name, v),
            None => none_named(reply, name),
        },
        forall|v: Doc| #[trigger] first_named(reply, name, v) ==> var_in(reply, name) == Some(v),
{
    let vars = reply.at("body"@).at("variables"@).items();
    lemma_named(vars, name, 0);
    assert forall|v: Doc| #[trigger] first_named(reply, name, v) implies var_in(reply, name)
        == Some(v) by {
        let j = choose|j: int|
            {
                &&& 0 <= j < vars.len()
                &&& #[trigger] vars[j] == v
                &&& v.at("name"@) == Doc::Str(name)
                &&& forall|i: int| 0 <= i < j ==> (#[trigger] vars[i]).at("name"@) != Doc::Str(name)
            };
        assert(vars[j].at("name"@) == Doc::Str(name));
    }
}

proof fn lemma_local_scope(a: Seq<Doc>, i: int, j: int)
    requires
        0 <= i <= j < a.len(),
        is_local(a[j]),
        forall|k: int| i <= k < j ==> !is_local(#[trigger] a[k]),
    ensures
        local_scope(a, i) == Some(a[j]),
    decreases j - i,
{
    if i < j {
        assert(!is_local(a[i]));
        lemma_local_scope(a, i + 1, j);
    }
}

/// The reference to the local variables is the one that is read.
pub proof fn lemma_refers_to_locals(reply: Doc, r: int)
    requires
        refers_to_locals(reply, r),
    ensures
        locals_in(reply) == r,
{
    let scopes = reply.at("body"@).at("scopes"@).items();
    let j = choose|j: int|
        {
            &&& 0 <= j < scopes.len()
            &&& "local"@.is_prefix_of(lowered((#[trigger] scopes[j]).at("name"@).text_or(""@)))
            &&& scopes[j].at("variablesReference"@) == Doc::Int(r)
            &&& i64::MIN <= r <= i64::MAX
            &&& forall|i: int|
                0 <= i < j ==> !"local"@.is_prefix_of(
                    lowered((#[trigger] scopes[i]).at("name"@).text_or(""@)),
                )
        };
    lemma_local_scope(scopes, 0, j);
}

/// Where a walk down the tree from part `k` ends.
proof fn lemma_walk(
    parts: Seq<Seq<char>>,
    k: int,
    rref: int,
    replies: Seq<Doc>,
    at: int,
) -> (refs: Seq<int>)
    requires
        0 <= k < parts.len(),
        0 <= at <= replies.len(),
    ensures
        refs.len() > 0,
        refs[0] == rref,
        leads_down(parts.skip(k), refs, replies, at),
        match walk_turn(parts, k, rref, replies, at) {
            Turn::Done(Some((r, leaf)), n) => leaf == parts.last() && refs.len() == parts.len() - k
                && r == refs.last() && n == at + refs.len() - 1 && n <= replies.len(),
            Turn::Done(None, n) => n == at + refs.len() && n <= replies.len() && refs.len()
                < parts.len() - k && child_ref(replies[n - 1], parts[k + refs.len() - 1]) is None,
            Turn::Ask(a) => at + refs.len() - 1 == replies.len() && refs.len() < parts.len() - k
                && a == variables_ask(refs.last()),
        },
    decreases parts.len() - k,
{
    if k >= parts.len() - 1 {
        seq![rref]
    } else if at >= replies.len() {
        seq![rref]
    } else {
        match child_ref(replies[at], parts[k]) {
            Some(r) => {
                let rest = lemma_walk(parts, k + 1, r, replies, at + 1);
                let refs = seq![rref] + rest;
                assert forall|j: int| 1 <= j < refs.len() implies has_child(
                    replies[at + j - 1],
                    parts.skip(k)[j - 1],
                    #[trigger] refs[j],
                ) by {
                    if j == 1 {
                        a_variable_is_found_by_its_name(replies[at], parts[k]);
                        let v = var_in(replies[at], parts[k])->0;
                        assert(first_named(replies[at], parts[k], v));
                    } else {
                        assert(refs[j] == rest[j - 1]);
                        assert(has_child(
                            replies[at + 1 + (j - 1) - 1],
                            parts.skip(k + 1)[j - 1 - 1],
                            rest[j - 1],
                        ));
                        assert(parts.skip(k + 1)[j - 2] == parts.skip(k)[j - 1]);
                    }
                }
                refs
            },
            None => seq![rref],
        }
    }
}

/// A path is followed through all of its parts. The local variables of the
/// selected frame are asked for first, then, part after part, what lies under
/// the variable that the part names in the reply before; what comes out is the
/// last reference that was reached, with the last part as the name to look for
/// under it. Where a part names no variable with children, nothing comes out.
pub proof fn a_path_is_followed_down_the_tree(
    m: SessionModel,
    stop: StopModel,
    path: Seq<char>,
    replies: Seq<Doc>,
    at: int,
)
    requires
        m.last_stop == Some(stop),
        0 <= m.cur_frame < stop.frames.len(),
        path_parts(path, 0).len() > 0,
        0 <= at <= replies.len(),
    ensures
        ({
            let parts = path_parts(path, 0);
            let turn = resolve_turn(m, path, replies, at);
            if at == replies.len() {
                turn matches Turn::Ask(a) && a.command == "scopes"@ && a.args.at("frameId"@)
                    == Doc::Int(stop.frames[m.cur_frame].id)
            } else {
                exists|refs: Seq<int>|
                    {
                        &&& refs.len() > 0
                        &&& forall|r: int| #[trigger] refers_to_locals(replies[at], r) ==> refs[0] == r
                        &&& #[trigger] leads_down(parts, refs, replies, at + 1)
                        &&& match turn {
                            Turn::Done(Some((r, leaf)), n) => leaf == parts.last() && refs.len()
                                == parts.len() && r == refs.last() && n == at + parts.len(),
                            Turn::Done(None, n) => refs.len() < parts.len() && n == at + 1
                                + refs.len() && forall|c: int| !#[trigger]
                                has_child(replies[n - 1], parts[refs.len() - 1], c),
                            Turn::Ask(a) => refs.len() < parts.len() && at + refs.len()
                                == replies.len() && a.command == "variables"@ && a.args.at(
                                "variablesReference"@,
                            ) == Doc::Int(refs.last()),
                        }
                    }
            }
        }),
{
    let parts = path_parts(path, 0);
    if at < replies.len() {
        let r0 = locals_in(replies[at]);
        let refs = lemma_walk(parts, 0, r0, replies, at + 1);
        assert(parts.skip(0) =~= parts);
        assert forall|r: int| #[trigger] refers_to_locals(replies[at], r) implies refs[0] == r by {
            lemma_refers_to_locals(replies[at], r);
        }
        if let Turn::Done(None, n) = resolve_turn(m, path, replies, at) {
            a_variable_is_found_by_its_name(replies[n - 1], parts[refs.len() - 1]);
        }
        assert(leads_down(parts, refs, replies, at + 1));
    }
}

/// A chain of references from part `k` on is the one that a walk takes.
proof fn lemma_walk_of(
    parts: Seq<Seq<char>>,
    k: int,
    refs: Seq<int>,
    replies: Seq<Doc>,
    at: int,
)
    requires
        0 <= k < parts.len(),
        refs.len() == parts.len(),
        leads_down(parts, refs, replies, at),
        0 <= at,
        at + parts.len() - 1 <= replies.len(),
    ensures
        walk_turn(parts, k, refs[k], replies, at + k) == Turn::Done(
            Some((refs.last(), parts.last())),
            at + parts.len() - 1,
        ),
    decreases parts.len() - k,
{
    if k < parts.len() - 1 {
        let j = k + 1;
        assert(refs[j] == refs[k + 1]);
        assert(has_child(replies[at + j - 1], parts[j - 1], refs[j]));
        let v = choose|v: Doc| #[trigger]
            first_named(replies[at + k], parts[k], v) && v.at("variablesReference"@) == Doc::Int(
                refs[j],
            );
        a_variable_is_found_by_its_name(replies[at + k], parts[k]);
        assert(child_ref(replies[at + k], parts[k]) == Some(refs[j]));
        lemma_walk_of(parts, k + 1, refs, replies, at);
    }
}

/// Where each part of a path names, in the reply before, a variable with
/// children, and the last part names a variable, that variable is found.
pub proof fn the_variable_at_a_path_is_found(
    m: SessionModel,
    stop: StopModel,
    path: Seq<char>,
    refs: Seq<int>,
    v: Doc,
    replies: Seq<Doc>,
    at: int,
)
    requires
        m.last_stop == Some(stop),
        0 <= m.cur_frame < stop.frames.len(),
        refs.len() == path_parts(path, 0).len(),
        refs.len() > 0,
        0 <= at,
        at + refs.len() < replies.len(),
        refers_to_locals(replies[at], refs[0]),
        leads_down(path_parts(path, 0), refs, replies, at + 1),
        first_named(replies[at + refs.len()], path_parts(path, 0).last(), v),
    ensures
        resolve_turn(m, path, replies, at) == Turn::Done(
            Some((refs.last(), path_parts(path, 0).last())),
            at + refs.len(),
        ),
        var_turn(m, path, replies, at) == Turn::Done(Some(v), at + refs.len() + 1),
        var_turn(m, path, replies.take(at + refs.len()), at) matches Turn::Ask(a) && a.command
            == "variables"@ && a.args.at("variablesReference"@) == Doc::Int(refs.last()),
{
    let parts = path_parts(path, 0);
    lemma_refers_to_locals(replies[at], refs[0]);
    lemma_walk_of(parts, 0, refs, replies, at + 1);
    a_variable_is_found_by_its_name(replies[at + refs.len()], parts.last());
    let short = replies.take(at + refs.len());
    assert(short[at] == replies[at]);
    assert forall|k: int| 1 <= k < refs.len() implies has_child(
        short[at + 1 + k - 1],
        parts[k - 1],
        #[trigger] refs[k],
    ) by {
        assert(short[at + 1 + k - 1] == replies[at + 1 + k - 1]);
    }
    lemma_walk_of(parts, 0, refs, short, at + 1);
}

proof fn lemma_no_receiver(e: Seq<char>, call: Seq<char>)
    requires
        forall|a: Seq<char>| e != #[trigger] (a + call),
    ensures
        receiver(e, call) is None,
{
    if call.is_suffix_of(e) {
        let a = e.take(e.len() - call.len());
        assert(e =~= a + call);
    }
}

proof fn lemma_typed_value(typ: Seq<char>, value: Seq<char>)
    requires
        typ.len() > 0,
        typ[0] != ' ',
        typ[0] != '=',
        value.len() > 0,
        value.last() != ' ',
        value.last() != '=',
    ensures
        typed_value(typ, value) == typ + " = "@ + value,
{
    let s = typ + " = "@ + value;
    lemma_strip_start(s, either(' ', '='), 0);
    assert(s.skip(0) =~= s);
    lemma_strip_end(s, either(' ', '='), s.len() as int);
    assert(s.take(s.len() as int) =~= s);
}

/// The value of the variable at a path is what the adapter shows of it, behind
/// its type and an equal sign; the adapter evaluates nothing.
pub proof fn the_value_at_a_path_is_shown(
    m: SessionModel,
    stop: StopModel,
    path: Seq<char>,
    refs: Seq<int>,
    v: Doc,
    value: Seq<char>,
    replies: Seq<Doc>,
    at: int,
)
    requires
        m.last_stop == Some(stop),
        0 <= m.cur_frame < stop.frames.len(),
        trimmed(path) == path,
        forall|a: Seq<char>| path != #[trigger] (a + ".len()"@),
        forall|a: Seq<char>| path != #[trigger] (a + ".is_empty()"@),
        refs.len() == path_parts(path, 0).len(),
        refs.len() > 0,
        0 <= at,
        at + refs.len() < replies.len(),
        refers_to_locals(replies[at], refs[0]),
        leads_down(path_parts(path, 0), refs, replies, at + 1),
        first_named(replies[at + refs.len()], path_parts(path, 0).last(), v),
        v.at("value"@) == Doc::Str(value),
        value.len() > 0,
        value.last() != ' ',
        value.last() != '=',
        ({
            let typ = short_type_of(v.at("type"@).text_or(""@));
            typ.len() > 0 && typ[0] != ' ' && typ[0] != '='
        }),
    ensures
        evaluate_turn(m, path, replies, at) == Turn::Done(
            short_type_of(v.at("type"@).text_or(""@)) + " = "@ + value,
            at + refs.len() + 1,
        ),
{
    lemma_no_receiver(path, ".len()"@);
    lemma_no_receiver(path, ".is_empty()"@);
    the_variable_at_a_path_is_found(m, stop, path, refs, v, replies, at);
    lemma_typed_value(short_type_of(v.at("type"@).text_or(""@)), value);
}

proof fn lemma_receiver(path: Seq<char>, call: Seq<char>)
    requires
        trimmed(path) == path,
    ensures
        receiver(path + call, call) == Some(path),
{
    let e = path + call;
    assert(e.skip(path.len() as int) =~= call);
    assert(call.is_suffix_of(e)) by {
        assert(e.subrange(e.len() - call.len(), e.len() as int) =~= call);
    }
    assert(e.take(e.len() - call.len()) =~= path);
}

/// The length of a container is the number of its elements that the adapter
/// reports, and the container is empty where that number is zero.
pub proof fn lengths_are_the_reported_ones(
    m: SessionModel,
    stop: StopModel,
    path: Seq<char>,
    refs: Seq<int>,
    v: Doc,
    count: int,
    replies: Seq<Doc>,
    at: int,
)
    requires
        m.last_stop == Some(stop),
        0 <= m.cur_frame < stop.frames.len(),
        path.len() > 0,
        !white(path[0]),
        !white(path.last()),
        refs.len() == path_parts(path, 0).len(),
        refs.len() > 0,
        0 <= at,
        at + refs.len() < replies.len(),
        refers_to_locals(replies[at], refs[0]),
        leads_down(path_parts(path, 0), refs, replies, at + 1),
        first_named(replies[at + refs.len()], path_parts(path, 0).last(), v),
        v.at("indexedVariables"@) == Doc::Int(count),
        i64::MIN <= count <= i64::MAX,
    ensures
        evaluate_turn(m, path + ".len()"@, replies, at) == Turn::Done(
            "usize = "@ + int_text(count),
            at + refs.len() + 1,
        ),
        evaluate_turn(m, path + ".is_empty()"@, replies, at) == Turn::Done(
            if count == 0 {
                "bool = "@ + "true"@
            } else {
                "bool = "@ + "false"@
            },
            at + refs.len() + 1,
        ),
{
    let none = Seq::<char>::empty();
    reveal_strlit(".len()");
    reveal_strlit(".is_empty()");
    assert(none + path + none =~= path);
    lemma_trim_around(none, path, none);
    let a = path + ".len()"@;
    let b = path + ".is_empty()"@;
    assert(none + a + none =~= a);
    assert(a.last() == ')' && b.last() == ')');
    assert(a[0] == path[0] && b[0] == path[0]);
    lemma_trim_around(none, a, none);
    assert(none + b + none =~= b);
    lemma_trim_around(none, b, none);
    lemma_receiver(path, ".len()"@);
    lemma_receiver(path, ".is_empty()"@);
    assert(receiver(b, ".len()"@) is None) by {
        if ".len()"@.is_suffix_of(b) {
            let s = b.subrange(b.len() - 6, b.len() as int);
            assert(s[3] == ".len()"@[3]);
            assert(b[b.len() - 3] == 'y');
        }
    }
    the_variable_at_a_path_is_found(m, stop, path, refs, v, replies, at);
}

/// What the adapter evaluates is shown as it replies, type first; and where it
/// cannot evaluate an expression, that is said of the expression.
pub proof fn evaluations_are_shown_as_replied(
    adapter: Seq<char>,
    e: Seq<char>,
    reply: Doc,
    value: Seq<char>,
)
    ensures
        reply.at("success"@) == Doc::Bool(true) && reply.at("body"@).at("result"@) == Doc::Str(
            value,
        ) && value.len() > 0 && value.last() != ' ' && value.last() != '=' && ({
            let typ = short_type_of(reply.at("body"@).at("type"@).text_or(""@));
            typ.len() > 0 && typ[0] != ' ' && typ[0] != '='
        }) ==> evaluated(adapter, e, reply) == short_type_of(
            reply.at("body"@).at("type"@).text_or(""@),
        ) + " = "@ + value,
        reply.at("success"@) != Doc::Bool(true) ==> ("(cannot evaluate "@ + debug_text(
            e,
        )).is_prefix_of(evaluated(adapter, e, reply)),
{
    if reply.at("success"@) == Doc::Bool(true) {
        if reply.at("body"@).at("result"@) == Doc::Str(value) && value.len() > 0 && value.last()
            != ' ' && value.last() != '=' && ({
            let typ = short_type_of(reply.at("body"@).at("type"@).text_or(""@));
            typ.len() > 0 && typ[0] != ' ' && typ[0] != '='
        }) {
            lemma_typed_value(short_type_of(reply.at("body"@).at("type"@).text_or(""@)), value);
        }
    } else {
        let a = "(cannot evaluate "@ + debug_text(e);
        let r = evaluated(adapter, e, reply);
        assert(r.take(a.len() as int) =~= a);
    }
}

/// What the tree of variables does not show, the adapter is asked to evaluate
/// at the selected frame, under the expression as it stands; where nothing is
/// stopped, that is the answer.
pub proof fn what_the_tree_lacks_is_evaluated(
    m: SessionModel,
    stop: StopModel,
    expr: Seq<char>,
    replies: Seq<Doc>,
    at: int,
    k: int,
)
    requires
        counted_turn(m, trimmed(expr), replies, at) == Turn::Done(None::<Seq<char>>, at),
        tree_turn(m, trimmed(expr), replies, at) == Turn::Done(None::<Seq<char>>, k),
    ensures
        m.last_stop is None ==> evaluate_turn(m, expr, replies, at) == Turn::Done(
            "(not stopped)"@,
            k,
        ),
        m.last_stop == Some(stop) && 0 <= m.cur_frame < stop.frames.len() && k == replies.len()
            ==> (evaluate_turn(m, expr, replies, at) matches Turn::Ask(a) && a.command
            == "evaluate"@ && a.args.at("expression"@) == Doc::Str(trimmed(expr)) && a.args.at(
            "frameId"@,
        ) == Doc::Int(stop.frames[m.cur_frame].id) && a.args.at("context"@) == Doc::Str("hover"@)),
        m.last_stop == Some(stop) && 0 <= m.cur_frame < stop.frames.len() && 0 <= k < replies.len()
            ==> evaluate_turn(m, expr, replies, at) == Turn::Done(
            evaluated(m.adapter, trimmed(expr), replies[k]),
            k + 1,
        ),
{
    reveal_strlit("expression");
    reveal_strlit("frameId");
    reveal_strlit("context");
    assert("expression"@.len() == 10 && "frameId"@.len() == 7 && "context"@.len() == 7);
    assert("frameId"@[0] != "context"@[0]);
}

/// The length of a container is asked for by the field that holds it: that of a
/// string, of a slice or of a vector; and a map or a set reports how many it has.
pub proof fn containers_tell_their_length(v: Doc, t: Seq<char>, n: int)
    requires
        v.at("type"@) == Doc::Str(t),
        short_type_of(t) == t,
        i64::MIN <= n <= i64::MAX,
    ensures
        "String"@.is_prefix_of(t) ==> length_name(t) == Some("vec.len"@),
        t == "&str"@ ==> length_name(t) == Some("length"@),
        t.len() > 0 && t[0] == '[' ==> length_name(t) == Some("length"@),
        t.len() > 1 && t[0] == '&' && t[1] == '[' ==> length_name(t) == Some("length"@),
        "Vec"@.is_prefix_of(t) && !contains(t, "str"@) ==> length_name(t) == Some("len"@),
        v.at("indexedVariables"@) == Doc::Int(n) ==> reported_length(v) == Some(n),
        v.at("indexedVariables"@) is Null && v.at("namedVariables"@) == Doc::Int(n) && (
        "HashMap"@.is_prefix_of(t) || "BTreeSet"@.is_prefix_of(t)) ==> reported_length(v) == Some(
            n,
        ),
        v.at("indexedVariables"@) is Null && "Vec"@.is_prefix_of(t) && !contains(t, "Map"@)
            && !contains(t, "Set"@) ==> reported_length(v) is None,
{
    reveal_strlit("String");
    reveal_strlit("&str");
    reveal_strlit("str");
    reveal_strlit("[");
    reveal_strlit("&[");
    reveal_strlit("Vec");
    reveal_strlit("HashMap");
    reveal_strlit("BTreeSet");
    reveal_strlit("Map");
    reveal_strlit("Set");
    if t.len() > 0 {
        assert("String"@[0] == 'S' && "["@[0] == '[' && "&["@[0] == '&' && "Vec"@[0] == 'V');
        assert("String"@.is_prefix_of(t) ==> t[0] == "String"@[0]);
        assert("["@.is_prefix_of(t) ==> t[0] == "["@[0]);
        assert("&["@.is_prefix_of(t) ==> t[0] == "&["@[0]);
        assert("Vec"@.is_prefix_of(t) ==> t[0] == "Vec"@[0]);
        if t[0] == '[' {
            assert(t.subrange(0, 1) =~= "["@);
        }
        if t.len() > 1 && t[0] == '&' && t[1] == '[' {
            assert(t.subrange(0, 2) =~= "&["@);
        }
    }
    if t == "&str"@ {
        assert(t.subrange(1, 4) =~= "str"@);
        assert(occurs_at(t, "str"@, 1));
    }
    if "HashMap"@.is_prefix_of(t) {
        let h = t.subrange(0, 7);
        assert(t.subrange(4, 7) =~= h.subrange(4, 7));
        assert("HashMap"@.subrange(4, 7) =~= "Map"@);
        assert(occurs_at(t, "Map"@, 4));
    }
    if "BTreeSet"@.is_prefix_of(t) {
        let h = t.subrange(0, 8);
        assert(t.subrange(5, 8) =~= h.subrange(5, 8));
        assert("BTreeSet"@.subrange(5, 8) =~= "Set"@);
        assert(occurs_at(t, "Set"@, 5));
    }
}

} // verus!

//! rust-analyzer client for navigation (definition / hover / references /
//! workspace symbols): the messages to the server, and what its messages mean.

use vstd::prelude::*;
use crate::json::{docs, no_keys, opt_view, str_docs, Doc, Json};
use crate::text::{join, join_all, lemma_join_push, owned, same, views};
use crate::util::{
    absolute, plain_path, rel_from_uri, rel_of, uri, uri_of, uris_lead_back,
};

verus! {

// ---------------------------------------------------------------------------
// Messages to the server
// ---------------------------------------------------------------------------

/// How long the client waits for a reply to a navigation request, in seconds.
pub const NAV_SECS: u64 = 30;

/// How many references and symbols are shown.
pub const MOST: usize = 30;

pub open spec fn request_doc(id: int, method: Seq<char>, params: Doc) -> Doc {
    no_keys().with("jsonrpc"@, Doc::Str("2.0"@)).with("id"@, Doc::Int(id)).with(
        "method"@,
        Doc::Str(method),
    ).with("params"@, params)
}

pub open spec fn notice_doc(method: Seq<char>, params: Doc) -> Doc {
    no_keys().with("jsonrpc"@, Doc::Str("2.0"@)).with("method"@, Doc::Str(method)).with(
        "params"@,
        params,
    )
}

/// A request with its number.
pub fn request(id: i64, method: &str, params: Json) -> (r: Json)
    ensures
        r@ == request_doc(id as int, method@, params@),
{
    Json::obj().with("jsonrpc", Json::text("2.0")).with("id", Json::number(id)).with(
        "method",
        Json::text(method),
    ).with("params", params)
}

/// A notification.
pub fn notify(method: &str, params: Json) -> (r: Json)
    ensures
        r@ == notice_doc(method@, params@),
{
    Json::obj().with("jsonrpc", Json::text("2.0")).with("method", Json::text(method)).with(
        "params",
        params,
    )
}

pub open spec fn enabled() -> Doc {
    no_keys().with("enable"@, Doc::Bool(true))
}

/// What the client can do.
pub open spec fn capabilities() -> Doc {
    no_keys().with(
        "textDocument"@,
        no_keys().with(
            "hover"@,
            no_keys().with("contentFormat"@, Doc::Arr(str_docs(seq!["plaintext"@]))),
        ).with("definition"@, no_keys()).with("references"@, no_keys()),
    ).with(
        "workspace"@,
        no_keys().with("symbol"@, no_keys()).with("configuration"@, Doc::Bool(true)).with(
            "workspaceFolders"@,
            Doc::Bool(true),
        ),
    ).with("window"@, no_keys().with("workDoneProgress"@, Doc::Bool(true)))
}

/// How the server is to work: no checks on save, build scripts and procedural
/// macros on.
pub open spec fn server_options() -> Doc {
    no_keys().with("checkOnSave"@, Doc::Bool(false)).with(
        "cargo"@,
        no_keys().with("buildScripts"@, enabled()),
    ).with("procMacro"@, enabled())
}

pub open spec fn initialize_doc(pid: int, root_uri: Seq<char>) -> Doc {
    no_keys().with("processId"@, Doc::Int(pid)).with("rootUri"@, Doc::Str(root_uri)).with(
        "workspaceFolders"@,
        Doc::Arr(
            seq![no_keys().with("uri"@, Doc::Str(root_uri)).with("name"@, Doc::Str("root"@))],
        ),
    ).with("capabilities"@, capabilities()).with("initializationOptions"@, server_options())
}

fn make_capabilities() -> (r: Json)
    ensures
        r@ == capabilities(),
{
    let formats = vec![owned("plaintext")];
    assert(views(formats@) =~= seq!["plaintext"@]);
    let document = Json::obj().with(
        "hover",
        Json::obj().with("contentFormat", Json::strings(&formats)),
    ).with("definition", Json::obj()).with("references", Json::obj());
    let workspace = Json::obj().with("symbol", Json::obj()).with(
        "configuration",
        Json::boolean(true),
    ).with("workspaceFolders", Json::boolean(true));
    Json::obj().with("textDocument", document).with("workspace", workspace).with(
        "window",
        Json::obj().with("workDoneProgress", Json::boolean(true)),
    )
}

fn make_options() -> (r: Json)
    ensures
        r@ == server_options(),
{
    let scripts = Json::obj().with("enable", Json::boolean(true));
    let macros = Json::obj().with("enable", Json::boolean(true));
    Json::obj().with("checkOnSave", Json::boolean(false)).with(
        "cargo",
        Json::obj().with("buildScripts", scripts),
    ).with("procMacro", macros)
}

/// The parameters that begin a conversation about a workspace.
pub fn initialize_params(pid: u32, root: &str, cwd: &str) -> (r: Json)
    ensures
        r@ == initialize_doc(pid as int, uri_of(root@, cwd@)),
{
    let u = uri(root, cwd);
    let folder = Json::obj().with("uri", Json::text(u.as_str())).with("name", Json::text("root"));
    let ghost doc = folder@;
    let folders = vec![folder];
    assert(docs(folders@) =~= seq![doc]);
    Json::obj().with("processId", Json::number(pid as i64)).with(
        "rootUri",
        Json::text(u.as_str()),
    ).with("workspaceFolders", Json::list(folders)).with(
        "capabilities",
        make_capabilities(),
    ).with("initializationOptions", make_options())
}

pub open spec fn open_doc(u: Seq<char>, text: Seq<char>) -> Doc {
    no_keys().with(
        "textDocument"@,
        no_keys().with("uri"@, Doc::Str(u)).with("languageId"@, Doc::Str("rust"@)).with(
            "version"@,
            Doc::Int(1),
        ).with("text"@, Doc::Str(text)),
    )
}

/// The parameters that open a file.
pub fn open_params(path: &str, text: &str, cwd: &str) -> (r: Json)
    ensures
        r@ == open_doc(uri_of(path@, cwd@), text@),
{
    let u = uri(path, cwd);
    let document = Json::obj().with("uri", Json::text(u.as_str())).with(
        "languageId",
        Json::text("rust"),
    ).with("version", Json::number(1)).with("text", Json::text(text));
    Json::obj().with("textDocument", document)
}

/// A line or column counted from zero.
pub open spec fn from_zero(n: int) -> int {
    if n > 1 {
        n - 1
    } else {
        0
    }
}

pub open spec fn position_doc(u: Seq<char>, line: int, col: int) -> Doc {
    no_keys().with("textDocument"@, no_keys().with("uri"@, Doc::Str(u))).with(
        "position"@,
        no_keys().with("line"@, Doc::Int(from_zero(line))).with(
            "character"@,
            Doc::Int(from_zero(col)),
        ),
    )
}

fn count_from_zero(n: i64) -> (r: i64)
    ensures
        r == from_zero(n as int),
{
    if n > 1 {
        n - 1
    } else {
        0
    }
}

/// A position in a file, by its line and column counted from one.
pub fn pos(path: &str, line: i64, col: i64, cwd: &str) -> (r: Json)
    ensures
        r@ == position_doc(uri_of(path@, cwd@), line as int, col as int),
{
    let u = uri(path, cwd);
    Json::obj().with("textDocument", Json::obj().with("uri", Json::text(u.as_str()))).with(
        "position",
        Json::obj().with("line", Json::number(count_from_zero(line))).with(
            "character",
            Json::number(count_from_zero(col)),
        ),
    )
}

/// The parameters of a search for references: the position, and that the
/// declaration is not one.
pub fn references_params(position: Json) -> (r: Json)
    ensures
        r@ == position@.with(
            "context"@,
            no_keys().with("includeDeclaration"@, Doc::Bool(false)),
        ),
{
    position.with("context", Json::obj().with("includeDeclaration", Json::boolean(false)))
}

/// The parameters of a search for symbols.
pub fn symbols_params(query: &str) -> (r: Json)
    ensures
        r@ == no_keys().with("query"@, Doc::Str(query@)),
{
    Json::obj().with("query", Json::text(query))
}

// ---------------------------------------------------------------------------
// Messages from the server
// ---------------------------------------------------------------------------

/// What a message from the server means.
pub ghost enum HeardModel {
    Reply(int),
    Ready,
    Answer(Doc),
    Nothing,
}

/// What a message from the server means.
pub enum Heard {
    /// It is the reply to the request with that number.
    Reply(i64),
    /// The server has finished a piece of work: it is ready.
    Ready,
    /// It asks something, and this is the answer.
    Answer(Json),
    /// Nothing.
    Nothing,
}

impl View for Heard {
    type V = HeardModel;

    open spec fn view(&self) -> HeardModel {
        match self {
            Heard::Reply(n) => HeardModel::Reply(*n as int),
            Heard::Ready => HeardModel::Ready,
            Heard::Answer(j) => HeardModel::Answer(j@),
            Heard::Nothing => HeardModel::Nothing,
        }
    }
}

/// The answer to a question of the server's: null for each item that it asks
/// about.
pub open spec fn answer_doc(msg: Doc) -> Doc {
    let result = match msg.at("params"@).at("items"@) {
        Doc::Arr(a) => Doc::Arr(Seq::new(a.len(), |i: int| Doc::Null)),
        _ => Doc::Null,
    };
    no_keys().with("jsonrpc"@, Doc::Str("2.0"@)).with("id"@, msg.at("id"@)).with("result"@, result)
}

/// A question that the server waits on.
pub open spec fn is_question(method: Seq<char>) -> bool {
    method == "workspace/configuration"@ || method == "client/registerCapability"@ || method
        == "window/workDoneProgress/create"@
}

pub open spec fn heard_of(msg: Doc) -> HeardModel {
    if msg.has("id"@) && (msg.has("result"@) || msg.has("error"@)) {
        match msg.at("id"@).int64() {
            Some(n) => HeardModel::Reply(n),
            None => HeardModel::Nothing,
        }
    } else {
        match msg.at("method"@).text() {
            Some(m) => if m == "$/progress"@ {
                if msg.at("params"@).at("value"@).at("kind"@).text() == Some("end"@) {
                    HeardModel::Ready
                } else {
                    HeardModel::Nothing
                }
            } else if is_question(m) && msg.has("id"@) {
                HeardModel::Answer(answer_doc(msg))
            } else {
                HeardModel::Nothing
            },
            None => HeardModel::Nothing,
        }
    }
}

fn make_answer(msg: &Json, id: &Json) -> (r: Json)
    requires
        id@ == msg@.at("id"@),
    ensures
        r@ == answer_doc(msg@),
{
    let result = match msg.at("params").at("items").as_array() {
        Some(a) => {
            let mut nulls: Vec<Json> = Vec::new();
            let mut i: usize = 0;
            while i < a.len()
                invariant
                    i <= a.len(),
                    nulls.len() == i,
                    forall|k: int| 0 <= k < i ==> (#[trigger] nulls@[k])@ == Doc::Null,
                decreases a.len() - i,
            {
                nulls.push(Json::Null);
                i += 1;
            }
            assert(docs(nulls@) =~= Seq::new(a.len() as nat, |i: int| Doc::Null));
            Json::list(nulls)
        },
        None => Json::Null,
    };
    Json::obj().with("jsonrpc", Json::text("2.0")).with("id", id.copy()).with("result", result)
}

/// What a message from the server means. Its own requests must be answered so
/// that it proceeds.
pub fn heard(msg: &Json) -> (r: Heard)
    ensures
        r@ == heard_of(msg@),
{
    let settled = match msg.get("result") {
        Some(_) => true,
        None => match msg.get("error") {
            Some(_) => true,
            None => false,
        },
    };
    let id = msg.get("id");
    if let Some(n) = id {
        if settled {
            return match n.as_i64() {
                Some(k) => Heard::Reply(k),
                None => Heard::Nothing,
            };
        }
    }
    let method = match msg.at("method").as_str() {
        Some(m) => m,
        None => return Heard::Nothing,
    };
    if same(method, "$/progress") {
        let over = match msg.at("params").at("value").at("kind").as_str() {
            Some(k) => same(k, "end"),
            None => false,
        };
        return if over {
            Heard::Ready
        } else {
            Heard::Nothing
        };
    }
    let question = same(method, "workspace/configuration") || same(
        method,
        "client/registerCapability",
    ) || same(method, "window/workDoneProgress/create");
    if question {
        if let Some(n) = id {
            return Heard::Answer(make_answer(msg, n));
        }
    }
    Heard::Nothing
}

// ---------------------------------------------------------------------------
// Results
// ---------------------------------------------------------------------------

/// The value under a key, or else under another.
pub open spec fn at_either(d: Doc, key: Seq<char>, other: Seq<char>) -> Doc {
    if d.has(key) {
        d.at(key)
    } else {
        d.at(other)
    }
}

/// A line or column counted from one.
pub open spec fn from_one(n: int) -> int {
    if n < i64::MAX {
        n + 1
    } else {
        n
    }
}

/// A place in a file, as it is shown, given how its file is.
pub open spec fn spot_doc(file: Seq<char>, start: Doc) -> Doc {
    no_keys().with("file"@, Doc::Str(file)).with(
        "line"@,
        Doc::Int(from_one(start.at("line"@).int_or(0))),
    ).with("col"@, Doc::Int(from_one(start.at("character"@).int_or(0))))
}

/// The URI of a location.
pub open spec fn loc_uri(l: Doc) -> Seq<char> {
    at_either(l, "uri"@, "targetUri"@).text_or(""@)
}

/// A location as it is shown.
pub open spec fn loc_doc(l: Doc, root: Seq<char>) -> Doc {
    spot_doc(
        rel_of(loc_uri(l), root),
        at_either(l, "range"@, "targetSelectionRange"@).at("start"@),
    )
}

pub open spec fn loc_docs(ls: Seq<Doc>, root: Seq<char>) -> Seq<Doc> {
    Seq::new(ls.len(), |i: int| loc_doc(ls[i], root))
}

fn either<'a>(d: &'a Json, key: &str, other: &str) -> (r: &'a Json)
    ensures
        r@ == at_either(d@, key@, other@),
{
    match d.get(key) {
        Some(j) => j,
        None => d.at(other),
    }
}

fn count_from_one(n: i64) -> (r: i64)
    ensures
        r == from_one(n as int),
{
    if n < i64::MAX {
        n + 1
    } else {
        n
    }
}

/// A place in a file, as it is shown, given how its file is.
pub fn spot(file: &str, start: &Json) -> (r: Json)
    ensures
        r@ == spot_doc(file@, start@),
{
    let line: i64 = start.at("line").int_or(0);
    let col: i64 = start.at("character").int_or(0);
    Json::obj().with("file", Json::text(file)).with(
        "line",
        Json::number(count_from_one(line)),
    ).with("col", Json::number(count_from_one(col)))
}

/// A location as it is shown.
pub fn loc(l: &Json, root: &str) -> (r: Json)
    ensures
        r@ == loc_doc(l@, root@),
{
    let u = either(l, "uri", "targetUri").str_or("");
    let file = rel_from_uri(u.as_str(), root);
    let start = either(l, "range", "targetSelectionRange").at("start");
    spot(file.as_str(), start)
}

fn locs(a: &Vec<Json>, n: usize, root: &str) -> (r: Vec<Json>)
    requires
        n <= a.len(),
    ensures
        docs(r@) == loc_docs(docs(a@).take(n as int), root@),
{
    let mut r: Vec<Json> = Vec::new();
    let mut i: usize = 0;
    while i < n
        invariant
            i <= n <= a.len(),
            r.len() == i,
            forall|k: int| 0 <= k < i ==> (#[trigger] r@[k])@ == loc_doc(a@[k]@, root@),
        decreases n - i,
    {
        r.push(loc(&a[i], root));
        i += 1;
    }
    assert(docs(r@) =~= loc_docs(docs(a@).take(n as int), root@));
    r
}

/// The first `n` of some values.
pub open spec fn at_most(ds: Seq<Doc>, n: int) -> Seq<Doc> {
    if ds.len() <= n {
        ds
    } else {
        ds.take(n)
    }
}

/// The places that a definition's reply gives: one or several. No reply gives
/// none.
pub open spec fn definition_docs(reply: Option<Doc>, root: Seq<char>) -> Seq<Doc> {
    match reply {
        Some(r) => match r.at("result"@) {
            Doc::Arr(a) => loc_docs(a, root),
            Doc::Obj(m) => seq![loc_doc(Doc::Obj(m), root)],
            _ => Seq::empty(),
        },
        None => Seq::empty(),
    }
}

/// The places that a definition's reply gives; none where the file could not
/// be opened.
pub fn definition(reply: &Option<Json>, root: &str) -> (r: Vec<Json>)
    ensures
        docs(r@) == definition_docs(opt_view(*reply), root@),
{
    if let Some(j) = reply {
        let result = j.at("result");
        if let Some(a) = result.as_array() {
            assert(docs(a@).take(a.len() as int) =~= docs(a@));
            return locs(a, a.len(), root);
        }
        if result.is_object() {
            let l = loc(result, root);
            let ghost doc = l@;
            let r = vec![l];
            assert(docs(r@) =~= seq![doc]);
            return r;
        }
    }
    let none: Vec<Json> = Vec::new();
    assert(docs(none@) =~= Seq::empty());
    none
}

/// The places that a reply with references gives, at most [`MOST`].
pub open spec fn references_docs(reply: Option<Doc>, root: Seq<char>) -> Seq<Doc> {
    match reply {
        Some(r) => loc_docs(at_most(r.at("result"@).items(), MOST as int), root),
        None => Seq::empty(),
    }
}

fn most(n: usize) -> (r: usize)
    ensures
        r == if n <= MOST {
            n
        } else {
            MOST
        },
{
    if n <= MOST {
        n
    } else {
        MOST
    }
}

/// The places that a reply with references gives, at most [`MOST`]; none where
/// the file could not be opened.
pub fn references(reply: &Option<Json>, root: &str) -> (r: Vec<Json>)
    ensures
        docs(r@) == references_docs(opt_view(*reply), root@),
{
    if let Some(j) = reply {
        if let Some(a) = j.at("result").as_array() {
            let n: usize = most(a.len());
            assert(docs(a@).take(n as int) =~= at_most(docs(a@), MOST as int));
            return locs(a, n, root);
        }
    }
    let none: Vec<Json> = Vec::new();
    assert(docs(none@) =~= Seq::empty());
    assert(loc_docs(Seq::empty(), root@) =~= Seq::empty());
    none
}

pub open spec fn hover_parts(a: Seq<Doc>) -> Seq<Seq<char>> {
    Seq::new(a.len(), |i: int| a[i].at("value"@).text_or(""@))
}

/// The text that a hover's reply gives. No reply gives none.
pub open spec fn hover_text(reply: Option<Doc>) -> Seq<char> {
    match reply {
        Some(r) => {
            let contents = r.at("result"@).at("contents"@);
            match contents {
                Doc::Obj(_) => contents.at("value"@).text_or(""@),
                Doc::Str(s) => s,
                Doc::Arr(a) => join(hover_parts(a), "\n"@),
                _ => ""@,
            }
        },
        None => ""@,
    }
}

/// The text that a hover's reply gives; none where the file could not be
/// opened.
pub fn hover(reply: &Option<Json>) -> (t: String)
    ensures
        t@ == hover_text(opt_view(*reply)),
{
    let contents = match reply {
        Some(r) => r.at("result").at("contents"),
        None => return owned(""),
    };
    if contents.is_object() {
        return contents.at("value").str_or("");
    }
    if let Some(s) = contents.as_str() {
        return owned(s);
    }
    if let Some(a) = contents.as_array() {
        let mut parts: Vec<String> = Vec::new();
        let mut i: usize = 0;
        while i < a.len()
            invariant
                i <= a.len(),
                parts.len() == i,
                forall|k: int|
                    0 <= k < i ==> (#[trigger] parts@[k])@ == a@[k]@.at("value"@).text_or(""@),
            decreases a.len() - i,
        {
            parts.push(a[i].at("value").str_or(""));
            i += 1;
        }
        assert(views(parts@) =~= hover_parts(docs(a@)));
        return join_all(&parts, "\n");
    }
    owned("")
}

/// A symbol as it is shown.
pub open spec fn symbol_doc(s: Doc, root: Seq<char>) -> Doc {
    loc_doc(s.at("location"@), root).with("name"@, s.at("name"@)).with(
        "container"@,
        s.at("containerName"@),
    )
}

pub open spec fn symbol_docs(ss: Seq<Doc>, root: Seq<char>) -> Seq<Doc> {
    Seq::new(ss.len(), |i: int| symbol_doc(ss[i], root))
}

/// The symbols that a reply gives, at most [`MOST`].
pub open spec fn symbols_docs(reply: Doc, root: Seq<char>) -> Seq<Doc> {
    symbol_docs(at_most(reply.at("result"@).items(), MOST as int), root)
}

/// The symbols that a reply gives, at most [`MOST`].
pub fn symbols(reply: &Json, root: &str) -> (r: Vec<Json>)
    ensures
        docs(r@) == symbols_docs(reply@, root@),
{
    let mut r: Vec<Json> = Vec::new();
    if let Some(a) = reply.at("result").as_array() {
        let n: usize = most(a.len());
        let mut i: usize = 0;
        while i < n
            invariant
                i <= n <= a.len(),
                r.len() == i,
                forall|k: int| 0 <= k < i ==> (#[trigger] r@[k])@ == symbol_doc(a@[k]@, root@),
            decreases n - i,
        {
            let s = &a[i];
            r.push(
                loc(s.at("location"), root).with("name", s.at("name").copy()).with(
                    "container",
                    s.at("containerName").copy(),
                ),
            );
            i += 1;
        }
        assert(docs(r@) =~= symbol_docs(at_most(docs(a@), MOST as int), root@));
    } else {
        assert(docs(r@) =~= symbols_docs(reply@, root@));
    }
    r
}

// ---------------------------------------------------------------------------
// Laws
// ---------------------------------------------------------------------------

/// A position shown and asked about again is the same position: lines and
/// columns are counted from one on the outside and from zero inside.
pub proof fn positions_round_trip(n: int)
    requires
        0 <= n < i64::MAX,
    ensures
        from_zero(from_one(n)) == n,
{
}

/// Every question that the server waits on is answered, under its own id.
pub proof fn questions_are_answered(msg: Doc)
    requires
        msg.has("id"@),
        !msg.has("result"@),
        !msg.has("error"@),
        msg.at("method"@) matches Doc::Str(m) && is_question(m),
    ensures
        heard_of(msg) matches HeardModel::Answer(d) && d.at("id"@) == msg.at("id"@) && d.has(
            "result"@,
        ),
{
    reveal_strlit("$/progress");
    reveal_strlit("workspace/configuration");
    reveal_strlit("client/registerCapability");
    reveal_strlit("window/workDoneProgress/create");
    assert("$/progress"@.len() == 10 && "workspace/configuration"@.len() == 23);
    assert("client/registerCapability"@.len() == 25 && "window/workDoneProgress/create"@.len()
        == 30);
    reveal_strlit("id");
    reveal_strlit("result");
    reveal_strlit("jsonrpc");
    assert("id"@.len() == 2 && "result"@.len() == 6 && "jsonrpc"@.len() == 7);
}

proof fn lemma_spot_keys()
    ensures
        "file"@ != "line"@,
        "file"@ != "col"@,
        "line"@ != "col"@,
        "name"@ != "file"@,
        "name"@ != "line"@,
        "name"@ != "col"@,
        "container"@ != "file"@,
        "container"@ != "line"@,
        "container"@ != "col"@,
        "container"@ != "name"@,
        "textDocument"@ != "position"@,
        "line"@ != "character"@,
{
    reveal_strlit("file");
    reveal_strlit("line");
    reveal_strlit("col");
    reveal_strlit("name");
    reveal_strlit("container");
    reveal_strlit("textDocument");
    reveal_strlit("position");
    reveal_strlit("character");
    assert("file"@.len() == 4 && "line"@.len() == 4 && "col"@.len() == 3 && "name"@.len() == 4
        && "container"@.len() == 9 && "textDocument"@.len() == 12 && "position"@.len() == 8
        && "character"@.len() == 9);
    assert("file"@[0] == 'f' && "line"@[0] == 'l' && "name"@[0] == 'n');
}

/// A question about a place names the file and the place, with lines and
/// columns counted from zero where the user counts from one.
pub proof fn places_are_asked_for_from_zero(u: Seq<char>, line: int, col: int)
    requires
        line >= 1,
        col >= 1,
    ensures
        ({
            let d = position_doc(u, line, col);
            &&& d.at("textDocument"@).at("uri"@) == Doc::Str(u)
            &&& d.at("position"@).at("line"@) == Doc::Int(line - 1)
            &&& d.at("position"@).at("character"@) == Doc::Int(col - 1)
        }),
{
    lemma_spot_keys();
}

/// A place that is found in a file of the workspace is shown by the path below
/// its root, and by the line and the column counted from one; it may come as a
/// location or as a link to one.
pub proof fn places_are_shown_from_one(
    l: Doc,
    root: Seq<char>,
    p: Seq<char>,
    cwd: Seq<char>,
    line: int,
    col: int,
)
    requires
        plain_path(root),
        absolute(root),
        root != "/"@,
        plain_path(p),
        !absolute(p),
        0 <= line < i64::MAX,
        0 <= col < i64::MAX,
        ({
            let u = Doc::Str(uri_of(root + "/"@ + p, cwd));
            let plain = l.at("uri"@) == u && l.at("range"@).at("start"@).at("line"@) == Doc::Int(
                line,
            ) && l.at("range"@).at("start"@).at("character"@) == Doc::Int(col);
            let link = !l.has("uri"@) && !l.has("range"@) && l.at("targetUri"@) == u && l.at(
                "targetSelectionRange"@,
            ).at("start"@).at("line"@) == Doc::Int(line) && l.at("targetSelectionRange"@).at(
                "start"@,
            ).at("character"@) == Doc::Int(col);
            plain || link
        }),
    ensures
        loc_doc(l, root).at("file"@) == Doc::Str(p),
        loc_doc(l, root).at("line"@) == Doc::Int(line + 1),
        loc_doc(l, root).at("col"@) == Doc::Int(col + 1),
{
    lemma_spot_keys();
    uris_lead_back(root, p, cwd);
}

/// Every place in a reply is shown, in its order: of definitions all, whether
/// one or a list of them came; of references and of symbols the first thirty.
pub proof fn every_place_in_a_reply_is_shown(reply: Doc, ls: Seq<Doc>, root: Seq<char>, i: int)
    requires
        reply.at("result"@) == Doc::Arr(ls),
    ensures
        definition_docs(Some(reply), root).len() == ls.len(),
        0 <= i < ls.len() ==> definition_docs(Some(reply), root)[i] == loc_doc(ls[i], root),
        references_docs(Some(reply), root).len() == if ls.len() <= 30 {
            ls.len() as int
        } else {
            30
        },
        0 <= i < ls.len() && i < 30 ==> references_docs(Some(reply), root)[i] == loc_doc(
            ls[i],
            root,
        ),
        symbols_docs(reply, root).len() == references_docs(Some(reply), root).len(),
        0 <= i < ls.len() && i < 30 ==> {
            let d = symbols_docs(reply, root)[i];
            &&& d.at("name"@) == ls[i].at("name"@)
            &&& d.at("container"@) == ls[i].at("containerName"@)
            &&& d.at("file"@) == loc_doc(ls[i].at("location"@), root).at("file"@)
            &&& d.at("line"@) == loc_doc(ls[i].at("location"@), root).at("line"@)
        },
        definition_docs(None, root).len() == 0,
        references_docs(None, root).len() == 0,
{
    lemma_spot_keys();
}

/// One place alone is shown as one.
pub proof fn a_single_definition_is_shown(reply: Doc, m: Map<Seq<char>, Doc>, root: Seq<char>)
    requires
        reply.at("result"@) == Doc::Obj(m),
    ensures
        definition_docs(Some(reply), root) == seq![loc_doc(Doc::Obj(m), root)],
{
}

/// What is known of a place is shown whole, in whichever of its three forms it
/// comes: as one value, as a text, or as a list of values, one a line.
pub proof fn hovers_are_shown_in_every_form(
    reply: Doc,
    text: Seq<char>,
    a: Doc,
    b: Doc,
    x: Seq<char>,
    y: Seq<char>,
)
    requires
        a.at("value"@) == Doc::Str(x),
        b.at("value"@) == Doc::Str(y),
    ensures
        ({
            let c = reply.at("result"@).at("contents"@);
            &&& c == Doc::Str(text) ==> hover_text(Some(reply)) == text
            &&& c is Obj && c.at("value"@) == Doc::Str(text) ==> hover_text(Some(reply)) == text
            &&& c == Doc::Arr(seq![a, b]) ==> hover_text(Some(reply)) == x + "\n"@ + y
            &&& c is Null ==> hover_text(Some(reply)) == ""@
            &&& hover_text(None) == ""@
        }),
{
    let parts = hover_parts(seq![a, b]);
    assert(parts =~= seq![x].push(y));
    lemma_join_push(seq![x], "\n"@, y);
}

/// A message with the number of a request and its result or error is the reply
/// to that request; the end of a progress says that the server is ready; any
/// other notice is nothing to the client.
pub proof fn messages_of_the_server_are_told_apart(msg: Doc, n: int)
    ensures
        msg.at("id"@) == Doc::Int(n) && i64::MIN <= n <= i64::MAX && (msg.has("result"@) || msg.has(
            "error"@,
        )) ==> heard_of(msg) == HeardModel::Reply(n),
        !msg.has("id"@) && msg.at("method"@) == Doc::Str("$/progress"@) && msg.at("params"@).at(
            "value"@,
        ).at("kind"@) == Doc::Str("end"@) ==> heard_of(msg) == HeardModel::Ready,
        !msg.has("id"@) && msg.at("method"@) == Doc::Str("$/progress"@) && msg.at("params"@).at(
            "value"@,
        ).at("kind"@) != Doc::Str("end"@) ==> heard_of(msg) == HeardModel::Nothing,
        !msg.has("id"@) && msg.at("method"@) != Doc::Str("$/progress"@) ==> heard_of(msg)
            == HeardModel::Nothing,
{
}

/// A question of the server's is answered under its number: with nothing for
/// each item that it asks for, and with nothing where it asks for none.
pub proof fn questions_of_the_server_are_answered(msg: Doc, items: Seq<Doc>, i: int)
    ensures
        answer_doc(msg).at("id"@) == msg.at("id"@),
        answer_doc(msg).has("result"@),
        !answer_doc(msg).has("error"@),
        msg.at("params"@).at("items"@) == Doc::Arr(items) ==> answer_doc(msg).at(
            "result"@,
        ).items().len() == items.len(),
        msg.at("params"@).at("items"@) == Doc::Arr(items) && 0 <= i < items.len() ==> answer_doc(
            msg,
        ).at("result"@).items()[i] is Null,
        msg.at("params"@).at("items"@) is Null ==> answer_doc(msg).at("result"@) is Null,
        msg.has("id"@) && !msg.has("result"@) && !msg.has("error"@) && (msg.at("method"@)
            == Doc::Str("workspace/configuration"@) || msg.at("method"@) == Doc::Str(
            "client/registerCapability"@,
        ) || msg.at("method"@) == Doc::Str("window/workDoneProgress/create"@)) ==> heard_of(msg)
            == HeardModel::Answer(answer_doc(msg)),
{
    reveal_strlit("jsonrpc");
    reveal_strlit("id");
    reveal_strlit("result");
    reveal_strlit("error");
    assert("jsonrpc"@.len() == 7 && "id"@.len() == 2 && "result"@.len() == 6 && "error"@.len() == 5);
    reveal_strlit("$/progress");
    reveal_strlit("workspace/configuration");
    reveal_strlit("client/registerCapability");
    reveal_strlit("window/workDoneProgress/create");
    assert("$/progress"@.len() == 10 && "workspace/configuration"@.len() == 23
        && "client/registerCapability"@.len() == 25 && "window/workDoneProgress/create"@.len()
        == 30);
}

/// The server is told of the root alone, is to report its progress, and runs no
/// checks of its own; a file is opened with its whole text.
pub proof fn the_server_is_told_how_to_work(pid: int, root: Seq<char>, u: Seq<char>, text: Seq<char>)
    ensures
        ({
            let d = initialize_doc(pid, root);
            let o = open_doc(u, text).at("textDocument"@);
            &&& d.at("processId"@) == Doc::Int(pid)
            &&& d.at("rootUri"@) == Doc::Str(root)
            &&& d.at("workspaceFolders"@).items().len() == 1
            &&& d.at("workspaceFolders"@).items()[0].at("uri"@) == Doc::Str(root)
            &&& d.at("capabilities"@).at("window"@).at("workDoneProgress"@) == Doc::Bool(true)
            &&& d.at("capabilities"@).at("workspace"@).at("configuration"@) == Doc::Bool(true)
            &&& d.at("initializationOptions"@).at("checkOnSave"@) == Doc::Bool(false)
            &&& d.at("initializationOptions"@).at("procMacro"@).at("enable"@) == Doc::Bool(true)
            &&& d.at("initializationOptions"@).at("cargo"@).at("buildScripts"@).at("enable"@)
                == Doc::Bool(true)
            &&& o.at("uri"@) == Doc::Str(u)
            &&& o.at("text"@) == Doc::Str(text)
            &&& o.at("languageId"@) == Doc::Str("rust"@)
            &&& o.at("version"@) == Doc::Int(1)
        }),
{
    lemma_handshake_keys();
}

proof fn lemma_handshake_keys()
    ensures
        "processId"@.len() == 9,
        "rootUri"@.len() == 7,
        "workspaceFolders"@.len() == 16,
        "capabilities"@.len() == 12,
        "initializationOptions"@.len() == 21,
        "textDocument"@.len() == 12,
        "textDocument"@[0] == 't',
        "workspace"@.len() == 9,
        "workspace"@[0] == 'w',
        "window"@.len() == 6,
        "symbol"@.len() == 6,
        "configuration"@.len() == 13,
        "checkOnSave"@.len() == 11,
        "cargo"@.len() == 5,
        "procMacro"@.len() == 9,
        "procMacro"@[0] == 'p',
        "uri"@.len() == 3,
        "languageId"@.len() == 10,
        "version"@.len() == 7,
        "text"@.len() == 4,
        "name"@.len() == 4,
{
    reveal_strlit("processId");
    reveal_strlit("rootUri");
    reveal_strlit("workspaceFolders");
    reveal_strlit("capabilities");
    reveal_strlit("initializationOptions");
    reveal_strlit("textDocument");
    reveal_strlit("workspace");
    reveal_strlit("window");
    reveal_strlit("symbol");
    reveal_strlit("configuration");
    reveal_strlit("checkOnSave");
    reveal_strlit("cargo");
    reveal_strlit("procMacro");
    reveal_strlit("uri");
    reveal_strlit("languageId");
    reveal_strlit("version");
    reveal_strlit("text");
    reveal_strlit("name");
}

} // verus!

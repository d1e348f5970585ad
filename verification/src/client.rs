//! The command line's side of talking to the daemon and to agents: what is
//! sent, and what is shown of the answer.
use vstd::prelude::*;
use vstd::utf8::encode_utf8;

use crate::api::{copy_opt, opt_view};
use crate::auth::admitted;
use crate::fork::ExecResponse;
use crate::json::{
    array_items, json_document, json_items, json_pretty, json_string, parse_json, pretty, quote,
    string_member, string_members, unsigned_member, unsigned_members,
};
use crate::tags::{tag_fault, valid_tag, validate_tag, TagError};
use crate::text::{
    chars_of, dec, dec_string, join, joined, pad_right, padded_right, str_eq, string_of, trim,
    trimmed, views,
};

verus! {

// ---------------------------------------------------------------------
// Requests
// ---------------------------------------------------------------------

/// `url` without the slashes at its end.
pub open spec fn trim_slashes(url: Seq<char>) -> Seq<char>
    decreases url.len(),
{
    if url.len() > 0 && url.last() == '/' {
        trim_slashes(url.drop_last())
    } else {
        url
    }
}

/// The address of an endpoint of the daemon at `base`.
pub fn endpoint(base: &str, path: &str) -> (r: String)
    ensures
        r@ == trim_slashes(base@) + path@,
{
    let v = chars_of(base);
    let mut n: usize = v.len();
    assert(base@.take(n as int) =~= base@);
    while n > 0 && v[n - 1] == '/'
        invariant
            n <= v.len(),
            v@ == base@,
            trim_slashes(base@) == trim_slashes(base@.take(n as int)),
        decreases n,
    {
        assert(base@.take(n as int).drop_last() =~= base@.take(n - 1));
        n -= 1;
    }
    let head = string_of(&v, 0, n);
    assert(head@ =~= base@.take(n as int));
    head.concat(path)
}

pub open spec fn bearer(token: Option<Seq<char>>) -> Option<Seq<char>> {
    match token {
        Some(t) => Some("Bearer "@ + t),
        None => None,
    }
}

/// A client that was given the daemon's token is let in everywhere.
pub proof fn law_the_token_opens(token: Seq<char>, path: Seq<char>)
    requires
        token.len() > 0,
        trim(token) == token,
    ensures
        admitted(Some(token), path, bearer(Some(token))),
{
    let p = "Bearer "@;
    assert(p.is_prefix_of(p + token));
    assert((p + token).skip(p.len() as int) =~= token);
}

/// The `Authorization` header that carries a token.
pub fn authorization(token: &Option<String>) -> (r: Option<String>)
    ensures
        opt_view(r) == bearer(opt_view(*token)),
{
    match token {
        Some(t) => Some("Bearer ".to_string().concat(t.as_str())),
        None => None,
    }
}

/// A request to the daemon that carries a body.
#[derive(Debug, PartialEq, Eq)]
pub struct PostCall {
    pub url: String,
    pub body: String,
    pub authorization: Option<String>,
}

/// The request that branches sandbox `id` into a new tag, or into one that the
/// daemon names.
pub fn branch_call(base: &str, token: &Option<String>, id: &str, tag: &Option<String>) -> (r: Result<
    PostCall,
    TagError,
>)
    ensures
        match r {
            Ok(c) => {
                &&& *tag matches Some(t) ==> valid_tag(t@)
                &&& c.url@ == trim_slashes(base@) + ("/v1/sandboxes/"@ + id@ + "/branch"@)
                &&& c.body@ == (match *tag {
                    Some(t) => "{\"tag\":"@ + json_string(t@) + "}"@,
                    None => "{}"@,
                })
                &&& opt_view(c.authorization) == bearer(opt_view(*token))
            },
            Err(e) => *tag matches Some(t) && !valid_tag(t@) && tag_fault(t@, e),
        },
{
    let body = match tag {
        Some(t) => {
            match validate_tag(t.as_str()) {
                Ok(_) => {},
                Err(e) => {
                    return Err(e);
                },
            }
            let q = quote(t.as_str());
            "{\"tag\":".to_string().concat(q.as_str()).concat("}")
        },
        None => "{}".to_string(),
    };
    let path = "/v1/sandboxes/".to_string().concat(id).concat("/branch");
    Ok(PostCall { url: endpoint(base, path.as_str()), body, authorization: authorization(token) })
}

// ---------------------------------------------------------------------
// Answers
// ---------------------------------------------------------------------

/// How a request to the daemon failed.
#[derive(Debug, PartialEq, Eq)]
pub enum CallError {
    /// The daemon refused; what it answered.
    Status { code: u16, body: String },
    Transport(String),
}

impl CallError {
    /// As it is shown for listing and killing.
    pub fn message(&self) -> (r: String)
        ensures
            r@ == (match *self {
                CallError::Status { code, body } => "HTTP "@ + dec(code as nat) + ": "@ + body@,
                CallError::Transport(e) => "transport: "@ + e@,
            }),
    {
        match self {
            CallError::Status { code, body } => {
                let n = dec_string(*code as u64);
                "HTTP ".to_string().concat(n.as_str()).concat(": ").concat(body.as_str())
            },
            CallError::Transport(e) => "transport: ".to_string().concat(e.as_str()),
        }
    }

    /// As it is shown for branching.
    pub fn branch_message(&self) -> (r: String)
        ensures
            r@ == (match *self {
                CallError::Status { code, body } => "daemon returned HTTP "@ + dec(code as nat)
                    + ": "@ + body@,
                CallError::Transport(e) => "HTTP POST failed: "@ + e@,
            }),
    {
        match self {
            CallError::Status { code, body } => {
                let n = dec_string(*code as u64);
                "daemon returned HTTP ".to_string().concat(n.as_str()).concat(": ").concat(
                    body.as_str(),
                )
            },
            CallError::Transport(e) => "HTTP POST failed: ".to_string().concat(e.as_str()),
        }
    }
}

pub open spec fn or_else(s: Option<Seq<char>>, other: Seq<char>) -> Seq<char> {
    match s {
        Some(t) => t,
        None => other,
    }
}

fn text_or(s: &Option<String>, other: &str) -> (r: String)
    ensures
        r@ == or_else(opt_view(*s), other@),
{
    match s {
        Some(t) => t.clone(),
        None => other.to_string(),
    }
}

/// What is shown of a new branch; a question mark stands for what is missing.
pub fn branch_summary(tag: &Option<String>, dir: &Option<String>, branched_from: &Option<String>) -> (r:
    String)
    ensures
        r@ == "tag:           "@ + or_else(opt_view(*tag), "?"@) + "\ndir:           "@ + or_else(
            opt_view(*dir),
            "?"@,
        ) + "\nbranched_from: "@ + or_else(opt_view(*branched_from), "?"@) + "\n"@,
{
    let t = text_or(tag, "?");
    let d = text_or(dir, "?");
    let b = text_or(branched_from, "?");
    "tag:           ".to_string().concat(t.as_str()).concat("\ndir:           ").concat(
        d.as_str(),
    ).concat("\nbranched_from: ").concat(b.as_str()).concat("\n")
}

/// What is shown of the daemon's answer to a branch, or None where that is not
/// JSON.
pub fn read_branch_answer(body: &str) -> (r: Option<String>)
    ensures
        match json_document(body@) {
            Some(v) => r matches Some(t) && t@ == "tag:           "@ + or_else(
                string_members(v).get("tag"@),
                "?"@,
            ) + "\ndir:           "@ + or_else(string_members(v).get("dir"@), "?"@)
                + "\nbranched_from: "@ + or_else(string_members(v).get("branched_from"@), "?"@)
                + "\n"@,
            None => r is None,
        },
{
    match parse_json(body) {
        Ok(v) => {
            let tag = string_member(&v, "tag");
            let dir = string_member(&v, "dir");
            let from = string_member(&v, "branched_from");
            Some(branch_summary(&tag, &dir, &from))
        },
        Err(_) => None,
    }
}

// ---------------------------------------------------------------------
// Listing and killing
// ---------------------------------------------------------------------

/// What is read of one sandbox in a listing.
#[derive(Debug, PartialEq, Eq)]
pub struct SandboxRow {
    pub id: Option<String>,
    pub snapshot_tag: Option<String>,
    pub pid: Option<u64>,
    pub netns: Option<String>,
    pub guest_addr: Option<String>,
}

pub open spec fn is_row(r: SandboxRow, v: serde_json::Value) -> bool {
    &&& opt_view(r.id) == string_members(v).get("id"@)
    &&& opt_view(r.snapshot_tag) == string_members(v).get("snapshot_tag"@)
    &&& r.pid == unsigned_members(v).get("pid"@)
    &&& opt_view(r.netns) == string_members(v).get("netns"@)
    &&& opt_view(r.guest_addr) == string_members(v).get("guest_addr"@)
}

fn row(v: &serde_json::Value) -> (r: SandboxRow)
    ensures
        is_row(r, *v),
{
    SandboxRow {
        id: string_member(v, "id"),
        snapshot_tag: string_member(v, "snapshot_tag"),
        pid: unsigned_member(v, "pid"),
        netns: string_member(v, "netns"),
        guest_addr: string_member(v, "guest_addr"),
    }
}

/// Reads the daemon's list of sandboxes; None where it is not JSON.
pub fn read_sandboxes(body: &str) -> (r: Option<Vec<SandboxRow>>)
    ensures
        match json_document(body@) {
            Some(v) => {
                &&& r is Some
                &&& r->0@.len() == json_items(v).len()
                &&& forall|i: int|
                    0 <= i < r->0@.len() ==> is_row(#[trigger] r->0@[i], json_items(v)[i])
            },
            None => r is None,
        },
{
    match parse_json(body) {
        Ok(v) => {
            let items = array_items(&v);
            let mut rows: Vec<SandboxRow> = Vec::new();
            let mut i: usize = 0;
            while i < items.len()
                invariant
                    i <= items.len(),
                    items@ == json_items(v),
                    rows@.len() == i,
                    forall|j: int| 0 <= j < i ==> is_row(#[trigger] rows@[j], json_items(v)[j]),
                decreases items.len() - i,
            {
                let one = row(&items[i]);
                rows.push(one);
                i += 1;
            }
            Some(rows)
        },
        Err(_) => None,
    }
}

/// The width of a column: that of its longest entry in bytes, at least eight.
pub open spec fn column_width(cells: Seq<Option<Seq<char>>>) -> nat
    decreases cells.len(),
{
    if cells.len() == 0 {
        8
    } else {
        let w = column_width(cells.drop_last());
        match cells.last() {
            Some(c) => if encode_utf8(c).len() > w {
                encode_utf8(c).len()
            } else {
                w
            },
            None => w,
        }
    }
}

pub open spec fn ids(rows: Seq<SandboxRow>) -> Seq<Option<Seq<char>>> {
    rows.map_values(|r: SandboxRow| opt_view(r.id))
}

pub open spec fn tags(rows: Seq<SandboxRow>) -> Seq<Option<Seq<char>>> {
    rows.map_values(|r: SandboxRow| opt_view(r.snapshot_tag))
}

pub open spec fn table_line(
    id: Seq<char>,
    tag: Seq<char>,
    pid: Seq<char>,
    netns: Seq<char>,
    guest: Seq<char>,
    id_w: nat,
    tag_w: nat,
) -> Seq<char> {
    "  "@ + pad_right(id, id_w, ' ') + "  "@ + pad_right(tag, tag_w, ' ') + "  "@ + pad_right(
        pid,
        8,
        ' ',
    ) + "  "@ + pad_right(netns, 14, ' ') + "  "@ + guest + "\n"@
}

pub open spec fn row_line(r: SandboxRow, id_w: nat, tag_w: nat) -> Seq<char> {
    table_line(
        or_else(opt_view(r.id), "?"@),
        or_else(opt_view(r.snapshot_tag), "?"@),
        match r.pid {
            Some(p) => dec(p as nat),
            None => "—"@,
        },
        or_else(opt_view(r.netns), "—"@),
        or_else(opt_view(r.guest_addr), "—"@),
        id_w,
        tag_w,
    )
}

pub open spec fn row_lines(rows: Seq<SandboxRow>, id_w: nat, tag_w: nat) -> Seq<char>
    decreases rows.len(),
{
    if rows.len() == 0 {
        Seq::empty()
    } else {
        row_lines(rows.drop_last(), id_w, tag_w) + row_line(rows.last(), id_w, tag_w)
    }
}

/// The table of sandboxes: a heading, one line each, and how many there are.
pub open spec fn sandbox_table(rows: Seq<SandboxRow>) -> Seq<char> {
    let id_w = column_width(ids(rows));
    let tag_w = column_width(tags(rows));
    table_line("ID"@, "SNAPSHOT"@, "PID"@, "NETNS"@, "GUEST_ADDR"@, id_w, tag_w) + row_lines(
        rows,
        id_w,
        tag_w,
    ) + "\n  "@ + dec(rows.len()) + (if rows.len() == 1 {
        " sandbox\n"@
    } else {
        " sandboxes\n"@
    })
}

fn line_of(
    id: &str,
    tag: &str,
    pid: &str,
    netns: &str,
    guest: &str,
    id_w: usize,
    tag_w: usize,
) -> (r: String)
    ensures
        r@ == table_line(id@, tag@, pid@, netns@, guest@, id_w as nat, tag_w as nat),
{
    let a = padded_right(id, id_w, ' ');
    let b = padded_right(tag, tag_w, ' ');
    let c = padded_right(pid, 8, ' ');
    let d = padded_right(netns, 14, ' ');
    "  ".to_string().concat(a.as_str()).concat("  ").concat(b.as_str()).concat("  ").concat(
        c.as_str(),
    ).concat("  ").concat(d.as_str()).concat("  ").concat(guest).concat("\n")
}

fn wider(w: usize, cell: &Option<String>) -> (r: usize)
    ensures
        r == (match opt_view(*cell) {
            Some(c) => if encode_utf8(c).len() > w {
                encode_utf8(c).len()
            } else {
                w as nat
            },
            None => w as nat,
        }),
{
    match cell {
        Some(c) => {
            let n: usize = c.as_str().as_bytes().len();
            if n > w {
                n
            } else {
                w
            }
        },
        None => w,
    }
}

/// What listing shows, or None where there is nothing to list.
pub fn ls(rows: &Vec<SandboxRow>) -> (r: Option<String>)
    ensures
        if rows@.len() == 0 {
            r is None
        } else {
            r matches Some(t) && t@ == sandbox_table(rows@)
        },
{
    if rows.len() == 0 {
        return None;
    }
    let ghost all_ids = ids(rows@);
    let ghost all_tags = tags(rows@);
    let mut id_w: usize = 8;
    let mut tag_w: usize = 8;
    let mut i: usize = 0;
    while i < rows.len()
        invariant
            i <= rows.len(),
            all_ids == ids(rows@),
            all_tags == tags(rows@),
            id_w == column_width(all_ids.take(i as int)),
            tag_w == column_width(all_tags.take(i as int)),
        decreases rows.len() - i,
    {
        assert(all_ids.take(i + 1).drop_last() =~= all_ids.take(i as int));
        assert(all_ids.take(i + 1).last() == opt_view(rows@[i as int].id));
        assert(all_tags.take(i + 1).drop_last() =~= all_tags.take(i as int));
        assert(all_tags.take(i + 1).last() == opt_view(rows@[i as int].snapshot_tag));
        id_w = wider(id_w, &rows[i].id);
        tag_w = wider(tag_w, &rows[i].snapshot_tag);
        i += 1;
    }
    assert(all_ids.take(i as int) =~= all_ids);
    assert(all_tags.take(i as int) =~= all_tags);
    let head = line_of("ID", "SNAPSHOT", "PID", "NETNS", "GUEST_ADDR", id_w, tag_w);
    let mut body = String::new();
    let mut j: usize = 0;
    assert(body@ =~= row_lines(rows@.take(0), id_w as nat, tag_w as nat));
    while j < rows.len()
        invariant
            j <= rows.len(),
            body@ == row_lines(rows@.take(j as int), id_w as nat, tag_w as nat),
        decreases rows.len() - j,
    {
        assert(rows@.take(j + 1).drop_last() =~= rows@.take(j as int));
        let r = &rows[j];
        let id = text_or(&r.id, "?");
        let tag = text_or(&r.snapshot_tag, "?");
        let pid = match r.pid {
            Some(p) => dec_string(p),
            None => "—".to_string(),
        };
        let netns = text_or(&r.netns, "—");
        let guest = text_or(&r.guest_addr, "—");
        let l = line_of(
            id.as_str(),
            tag.as_str(),
            pid.as_str(),
            netns.as_str(),
            guest.as_str(),
            id_w,
            tag_w,
        );
        body = body.concat(l.as_str());
        j += 1;
    }
    assert(rows@.take(j as int) =~= rows@);
    let n = dec_string(rows.len() as u64);
    let tail = if rows.len() == 1 {
        " sandbox\n"
    } else {
        " sandboxes\n"
    };
    Some(head.concat(body.as_str()).concat("\n  ").concat(n.as_str()).concat(tail))
}

/// Whether a sandbox is among those to kill.
pub open spec fn is_target(r: SandboxRow, tag: Option<Seq<char>>) -> bool {
    &&& r.id is Some
    &&& tag matches Some(t) ==> opt_view(r.snapshot_tag) == Some(t)
}

/// The ids of the sandboxes to kill: those of a tag, or all that have an id.
pub open spec fn targets(rows: Seq<SandboxRow>, tag: Option<Seq<char>>) -> Seq<Seq<char>>
    decreases rows.len(),
{
    if rows.len() == 0 {
        Seq::empty()
    } else {
        let rest = targets(rows.drop_last(), tag);
        if is_target(rows.last(), tag) {
            rest.push(rows.last().id->0@)
        } else {
            rest
        }
    }
}

fn listed_targets(rows: &Vec<SandboxRow>, tag: &Option<String>) -> (r: Vec<String>)
    ensures
        views(r@) == targets(rows@, opt_view(*tag)),
{
    let ghost want = opt_view(*tag);
    let mut out: Vec<String> = Vec::new();
    let mut i: usize = 0;
    assert(views(out@) =~= targets(rows@.take(0), want));
    while i < rows.len()
        invariant
            i <= rows.len(),
            want == opt_view(*tag),
            views(out@) == targets(rows@.take(i as int), want),
        decreases rows.len() - i,
    {
        let ghost before = views(out@);
        assert(rows@.take(i + 1).drop_last() =~= rows@.take(i as int));
        assert(rows@.take(i + 1).last() == rows@[i as int]);
        let r = &rows[i];
        let fits = match tag {
            Some(t) => match &r.snapshot_tag {
                Some(s) => str_eq(s.as_str(), t.as_str()),
                None => false,
            },
            None => true,
        };
        match &r.id {
            Some(id) => {
                if fits {
                    let c = id.clone();
                    out.push(c);
                    assert(views(out@) =~= before.push(c@));
                }
            },
            None => {},
        }
        i += 1;
    }
    assert(rows@.take(i as int) =~= rows@);
    out
}

/// Whether the daemon has to be asked which sandboxes to kill.
pub fn needs_listing(all: bool, tag: &Option<String>) -> (r: bool)
    ensures
        r == (all || tag is Some),
{
    all || tag.is_some()
}

/// The sandboxes to kill: those of a tag or all that the daemon lists, else
/// the ones that are named.
pub fn kill(named: &Vec<String>, all: bool, tag: &Option<String>, rows: &Vec<SandboxRow>) -> (r: Result<
    Vec<String>,
    String,
>)
    ensures
        if all || tag is Some {
            r matches Ok(v) && views(v@) == targets(rows@, opt_view(*tag))
        } else if named@.len() == 0 {
            r matches Err(e) && e@
                == "no sandbox specified; pass <ID>... or --all or --tag <TAG>"@
        } else {
            r matches Ok(v) && views(v@) == views(named@)
        },
{
    if needs_listing(all, tag) {
        return Ok(listed_targets(rows, tag));
    }
    if named.len() == 0 {
        return Err("no sandbox specified; pass <ID>... or --all or --tag <TAG>".to_string());
    }
    let mut out: Vec<String> = Vec::new();
    let mut i: usize = 0;
    assert(views(out@) =~= views(named@).take(0));
    while i < named.len()
        invariant
            i <= named.len(),
            views(out@) == views(named@).take(i as int),
        decreases named.len() - i,
    {
        let id = named[i].clone();
        proof {
            assert(views(out@.push(id)) =~= views(out@).push(id@));
            assert(views(named@).take(i + 1) =~= views(named@).take(i as int).push(id@));
        }
        out.push(id);
        i += 1;
    }
    assert(views(named@).take(i as int) =~= views(named@));
    Ok(out)
}

/// What a kill comes to, given how many of its sandboxes could not be killed.
pub fn kill_result(failed: usize, total: usize) -> (r: Result<(), String>)
    ensures
        if failed == 0 {
            r is Ok
        } else {
            r matches Err(e) && e@ == dec(failed as nat) + " of "@ + dec(total as nat)
                + " kills failed"@
        },
{
    if failed == 0 {
        return Ok(());
    }
    let f = dec_string(failed as u64);
    let t = dec_string(total as u64);
    Err(f.concat(" of ").concat(t.as_str()).concat(" kills failed"))
}

/// Killing everything names every sandbox that has an id.
pub proof fn law_kill_all_spares_none(rows: Seq<SandboxRow>, i: int)
    requires
        0 <= i < rows.len(),
        rows[i].id is Some,
    ensures
        targets(rows, None).contains(rows[i].id->0@),
    decreases rows.len(),
{
    let rest = targets(rows.drop_last(), None);
    let all = targets(rows, None);
    if i == rows.len() - 1 {
        assert(all.last() == rows[i].id->0@);
    } else {
        law_kill_all_spares_none(rows.drop_last(), i);
        let j = choose|j: int| 0 <= j < rest.len() && rest[j] == rows[i].id->0@;
        assert(all[j] == rest[j]);
    }
}

/// Killing a tag names every sandbox of that tag that has an id.
pub proof fn law_kill_tag_spares_none_of_it(rows: Seq<SandboxRow>, tag: Seq<char>, i: int)
    requires
        0 <= i < rows.len(),
        rows[i].id is Some,
        opt_view(rows[i].snapshot_tag) == Some(tag),
    ensures
        targets(rows, Some(tag)).contains(rows[i].id->0@),
    decreases rows.len(),
{
    let rest = targets(rows.drop_last(), Some(tag));
    let all = targets(rows, Some(tag));
    if i == rows.len() - 1 {
        assert(all.last() == rows[i].id->0@);
    } else {
        law_kill_tag_spares_none_of_it(rows.drop_last(), tag, i);
        let j = choose|j: int| 0 <= j < rest.len() && rest[j] == rows[i].id->0@;
        assert(all[j] == rest[j]);
    }
}

/// Killing a tag touches no sandbox of another.
pub proof fn law_kill_tag_spares_others(rows: Seq<SandboxRow>, tag: Seq<char>, id: Seq<char>)
    requires
        targets(rows, Some(tag)).contains(id),
    ensures
        exists|i: int|
            0 <= i < rows.len() && opt_view((#[trigger] rows[i]).id) == Some(id) && opt_view(
                rows[i].snapshot_tag,
            ) == Some(tag),
    decreases rows.len(),
{
    if rows.len() > 0 {
        let rest = targets(rows.drop_last(), Some(tag));
        let all = targets(rows, Some(tag));
        let j = choose|j: int| 0 <= j < all.len() && all[j] == id;
        if j < rest.len() {
            assert(rest[j] == id);
            law_kill_tag_spares_others(rows.drop_last(), tag, id);
            let i = choose|i: int|
                0 <= i < rows.drop_last().len() && opt_view((#[trigger] rows.drop_last()[i]).id)
                    == Some(id) && opt_view(rows.drop_last()[i].snapshot_tag) == Some(tag);
            assert(rows[i] == rows.drop_last()[i]);
        } else {
            assert(rows[rows.len() - 1] == rows.last());
        }
    }
}

// ---------------------------------------------------------------------
// Agents
// ---------------------------------------------------------------------

/// How often an agent that does not answer is asked.
pub const PING_ATTEMPTS: u32 = 30;

/// The pause between two such questions, in milliseconds.
pub const PING_INTERVAL_MS: u64 = 200;

/// Whether to ask once more after so many questions without an answer.
pub fn ping_again(unanswered: u32) -> (r: bool)
    ensures
        r == (unanswered < 30),
{
    unanswered < PING_ATTEMPTS
}

/// Reads an agent's answer to `ping`; None where it is not JSON.
pub fn read_pong(answer: &str) -> (r: Option<serde_json::Value>)
    ensures
        r == json_document(trim(answer@)),
{
    let t = trimmed(answer);
    match parse_json(t.as_str()) {
        Ok(v) => Some(v),
        Err(_) => None,
    }
}

/// What is shown of an agent's answer to `ping`; None where it is not JSON or
/// cannot be laid out.
pub fn show_pong(answer: &str) -> (r: Option<String>)
    ensures
        match json_document(trim(answer@)) {
            Some(v) => opt_view(r) == json_pretty(v),
            None => r is None,
        },
{
    match read_pong(answer) {
        Some(v) => match pretty(&v) {
            Ok(t) => Some(t),
            Err(_) => None,
        },
        None => None,
    }
}

/// The exit code of a command in a guest, or what the agent complained about.
pub fn exec_outcome(a: &ExecResponse) -> (r: Result<i32, String>)
    ensures
        match a.error {
            Some(e) => r matches Err(m) && m@ == "agent error: "@ + e@,
            None => r == Ok::<i32, String>(a.exit_code),
        },
{
    match &a.error {
        Some(e) => Err("agent error: ".to_string().concat(e.as_str())),
        None => Ok(a.exit_code),
    }
}

/// Whether there is a command to run.
pub fn check_command(cmd: &Vec<String>) -> (r: Result<(), String>)
    ensures
        if cmd@.len() == 0 {
            r matches Err(e) && e@
                == "no command provided. Usage: forkd exec -- <cmd> [args...]"@
        } else {
            r is Ok
        },
{
    if cmd.len() == 0 {
        return Err("no command provided. Usage: forkd exec -- <cmd> [args...]".to_string());
    }
    Ok(())
}

/// The expression that the words on the command line make up.
pub fn expression(code: &Vec<String>) -> (r: Result<String, String>)
    ensures
        if code@.len() == 0 {
            r matches Err(e) && e@
                == "no expression provided. Usage: forkd eval -- <python expr>"@
        } else {
            r matches Ok(t) && t@ == joined(views(code@), " "@)
        },
{
    if code.len() == 0 {
        return Err("no expression provided. Usage: forkd eval -- <python expr>".to_string());
    }
    Ok(join(code, " "))
}

/// What an evaluation shows.
#[derive(Debug, PartialEq, Eq)]
pub enum EvalOutput {
    /// It failed: what goes to the error stream, line by line.
    Failed(Vec<String>),
    /// It worked: what it gave, if anything.
    Shown(Option<String>),
}

/// The members of an agent's answer to `eval`.
#[derive(Debug, PartialEq, Eq)]
pub struct EvalAnswer {
    pub error: Option<String>,
    pub traceback: Option<String>,
    pub stack: Option<String>,
    /// The value as JSON, from a guest that runs JavaScript.
    pub result_json: Option<String>,
    /// The value as Python writes it.
    pub result: Option<String>,
}

pub open spec fn one_or_none(s: Option<Seq<char>>) -> Seq<Seq<char>> {
    match s {
        Some(t) => seq![t],
        None => Seq::empty(),
    }
}

pub open spec fn is_eval_output(
    o: EvalOutput,
    error: Option<Seq<char>>,
    traceback: Option<Seq<char>>,
    stack: Option<Seq<char>>,
    result_json: Option<Seq<char>>,
    result: Option<Seq<char>>,
) -> bool {
    match error {
        Some(e) => o matches EvalOutput::Failed(ls) && views(ls@) == seq!["error: "@ + e]
            + one_or_none(traceback) + one_or_none(stack),
        None => o matches EvalOutput::Shown(t) && opt_view(t) == (match result_json {
            Some(j) => Some(j),
            None => result,
        }),
    }
}

/// What to show of an answer.
pub fn eval_output(a: &EvalAnswer) -> (r: EvalOutput)
    ensures
        is_eval_output(
            r,
            opt_view(a.error),
            opt_view(a.traceback),
            opt_view(a.stack),
            opt_view(a.result_json),
            opt_view(a.result),
        ),
{
    match &a.error {
        Some(e) => {
            let mut ls: Vec<String> = Vec::new();
            ls.push("error: ".to_string().concat(e.as_str()));
            match &a.traceback {
                Some(t) => {
                    ls.push(t.clone());
                },
                None => {},
            }
            match &a.stack {
                Some(t) => {
                    ls.push(t.clone());
                },
                None => {},
            }
            assert(views(ls@) =~= seq!["error: "@ + e@] + one_or_none(opt_view(a.traceback))
                + one_or_none(opt_view(a.stack)));
            EvalOutput::Failed(ls)
        },
        None => match &a.result_json {
            Some(j) => EvalOutput::Shown(Some(j.clone())),
            None => EvalOutput::Shown(copy_opt(&a.result)),
        },
    }
}

/// What to show of an agent's answer to `eval`; None where it is not JSON.
pub fn read_eval_output(answer: &str) -> (r: Option<EvalOutput>)
    ensures
        match json_document(trim(answer@)) {
            Some(v) => r matches Some(o) && is_eval_output(
                o,
                string_members(v).get("error"@),
                string_members(v).get("traceback"@),
                string_members(v).get("stack"@),
                string_members(v).get("result_json"@),
                string_members(v).get("result"@),
            ),
            None => r is None,
        },
{
    let t = trimmed(answer);
    match parse_json(t.as_str()) {
        Ok(v) => {
            let a = EvalAnswer {
                error: string_member(&v, "error"),
                traceback: string_member(&v, "traceback"),
                stack: string_member(&v, "stack"),
                result_json: string_member(&v, "result_json"),
                result: string_member(&v, "result"),
            };
            Some(eval_output(&a))
        },
        Err(_) => None,
    }
}

} // verus!

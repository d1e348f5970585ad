//! What the guest's agent, the log and a scraper read in what they are sent.
use vstd::prelude::*;

use crate::audit::{audit_line, AuditEntry};
use crate::daemon::AppState;
use crate::document::{
    document, is_plain, law_documents_read_back, lemma_last_member, lemma_next_member,
    lemma_plain_literal, lemma_strings_array, lemma_three_members,
    lemma_two_members, lookup, named, text_of, Json,
};
use crate::firecracker::{request, Call};
use crate::fork::{eval_line, exec_line, exec_wait, ping_line};
use crate::json::{json_string, json_strings_array};
use crate::machine::{
    lead, lemma_lead, lemma_lookup_next, lemma_lookup_three, lemma_lookup_two,
    lemma_one_text, lemma_sum, number_at, text_at,
};
use crate::metrics::metrics_text;
use crate::text::{dec, occurs, occurs_at};
use vstd::utf8::encode_utf8;

verus! {

// ---------------------------------------------------------------------
// The agent
// ---------------------------------------------------------------------

/// The document on a line of its own.
pub open spec fn on_a_line(line: Seq<char>) -> Option<Json> {
    if line.len() > 0 && line.last() == '\n' {
        document(line.drop_last())
    } else {
        None
    }
}

proof fn lemma_on_a_line(text: Seq<char>)
    ensures
        on_a_line(text + seq!['\n']) == document(text),
{
    assert((text + seq!['\n']).drop_last() =~= text);
}

pub open spec fn strings(items: Seq<Seq<char>>) -> Json {
    Json::Items(items.map_values(|s: Seq<char>| Json::Text(s)))
}

proof fn lemma_exec_text(args: Seq<Seq<char>>, timeout_secs: u64)
    ensures
        exec_line(args, timeout_secs) == text_of(
            Json::Members(
                seq![
                    ("action"@, Json::Text("exec"@)),
                    ("args"@, strings(args)),
                    ("timeout"@, Json::Num(timeout_secs as nat)),
                ],
            ),
        ) + seq!['\n'],
{
    reveal_strlit("action");
    reveal_strlit("exec");
    reveal_strlit("args");
    reveal_strlit("timeout");
    reveal_strlit("{\"action\":\"exec\",\"args\":");
    reveal_strlit(",\"timeout\":");
    reveal_strlit("}\n");
    let act = Json::Text("exec"@);
    let num = Json::Num(timeout_secs as nat);
    lemma_plain_literal("exec"@);
    lemma_strings_array(args);
    lemma_three_members("action"@, act, "args"@, strings(args), "timeout"@, num);
    let first = named(seq!['{'], "action"@, act) + seq![','];
    assert("{\"action\":\"exec\",\"args\":"@ =~= lead(first, "args"@));
    let second = lead(first, "args"@) + json_strings_array(args);
    assert(",\"timeout\":"@ =~= lead(seq![','], "timeout"@));
    lemma_lead(second, seq![','], "timeout"@);
    let third = lead(second + seq![','], "timeout"@) + dec(timeout_secs as nat);
    assert("}\n"@ =~= seq!['}'] + seq!['\n']);
    lemma_sum(third, seq!['}'], seq!['\n']);
}

/// The agent reads the command that was given, word for word, and the time it
/// may take; and its answer is waited for longer than that.
pub proof fn law_agent_reads_the_command(args: Seq<Seq<char>>, timeout_secs: u64)
    ensures
        ({
            &&& on_a_line(exec_line(args, timeout_secs)) matches Some(d)
            &&& text_at(d, "action"@) == Some("exec"@)
            &&& d.member("args"@) == Some(strings(args))
            &&& number_at(d, "timeout"@) == Some(timeout_secs as nat)
        }),
        exec_wait(timeout_secs) matches Some(t) ==> t > timeout_secs,
        timeout_secs < u64::MAX - 5 ==> exec_wait(timeout_secs) is Some,
{
    reveal_strlit("action");
    reveal_strlit("args");
    reveal_strlit("timeout");
    assert("action"@[1] == 'c' && "args"@[1] == 'r' && "timeout"@[1] == 'i');
    let act = Json::Text("exec"@);
    let num = Json::Num(timeout_secs as nat);
    let d = Json::Members(
        seq![("action"@, act), ("args"@, strings(args)), ("timeout"@, num)],
    );
    lemma_exec_text(args, timeout_secs);
    lemma_on_a_line(text_of(d));
    law_documents_read_back(d);
    lemma_lookup_three("action"@, act, "args"@, strings(args), "timeout"@, num);
}

/// The agent reads the expression that was given.
pub proof fn law_agent_reads_the_expression(code: Seq<char>)
    ensures
        ({
            &&& on_a_line(eval_line(code)) matches Some(d)
            &&& text_at(d, "action"@) == Some("eval"@)
            &&& text_at(d, "code"@) == Some(code)
        }),
{
    reveal_strlit("action");
    reveal_strlit("eval");
    reveal_strlit("code");
    reveal_strlit("{\"action\":\"eval\",\"code\":");
    reveal_strlit("}\n");
    assert("action"@[0] == 'a' && "code"@[0] == 'c');
    let act = Json::Text("eval"@);
    let val = Json::Text(code);
    let d = Json::Members(seq![("action"@, act), ("code"@, val)]);
    lemma_plain_literal("eval"@);
    lemma_two_members("action"@, act, "code"@, val);
    let first = named(seq!['{'], "action"@, act) + seq![','];
    assert("{\"action\":\"eval\",\"code\":"@ =~= lead(first, "code"@));
    assert("}\n"@ =~= seq!['}'] + seq!['\n']);
    lemma_sum(lead(first, "code"@) + json_string(code), seq!['}'], seq!['\n']);
    assert(eval_line(code) == text_of(d) + seq!['\n']);
    lemma_on_a_line(text_of(d));
    law_documents_read_back(d);
    lemma_lookup_two("action"@, act, "code"@, val, Seq::empty());
}

/// The agent is asked whether it is there.
pub proof fn law_agent_reads_the_ping()
    ensures
        on_a_line(ping_line()) matches Some(d) && text_at(d, "action"@) == Some("ping"@),
{
    reveal_strlit("action");
    reveal_strlit("ping");
    reveal_strlit("{\"action\":\"ping\"}\n");
    let body = lead(seq!['{'], "action"@) + seq!['"'] + "ping"@ + seq!['"', '}'];
    lemma_one_text("action"@, "ping"@, body);
    assert(ping_line() =~= body + seq!['\n']);
    lemma_on_a_line(body);
}

// ---------------------------------------------------------------------
// The log
// ---------------------------------------------------------------------

spec fn entry_doc(e: AuditEntry) -> Json {
    Json::Members(
        seq![
            ("latency_us"@, Json::Num(e.latency_us as nat)),
            ("method"@, Json::Text(e.method@)),
            ("path"@, Json::Text(e.path@)),
            ("remote"@, Json::Text(e.remote@)),
            ("status"@, Json::Num(e.status as nat)),
            ("ts"@, Json::Text(e.ts@)),
            ("ua"@, Json::Text(e.ua@)),
        ],
    )
}

/// `before`, and `ms` behind it with commas between them.
spec fn in_order(before: Seq<char>, ms: Seq<(Seq<char>, Json)>) -> Seq<char>
    decreases ms.len(),
{
    if ms.len() == 0 {
        before
    } else if ms.len() == 1 {
        named(before, ms[0].0, ms[0].1)
    } else {
        in_order(named(before, ms[0].0, ms[0].1) + seq![','], ms.skip(1))
    }
}

proof fn lemma_in_order(before: Seq<char>, ms: Seq<(Seq<char>, Json)>)
    requires
        ms.len() > 0,
        forall|i: int| 0 <= i < ms.len() ==> is_plain((#[trigger] ms[i]).0),
    ensures
        before + crate::document::write_members(ms) == in_order(before, ms),
    decreases ms.len(),
{
    let (k, v) = ms[0];
    if ms.len() == 1 {
        assert(ms =~= seq![(k, v)]);
        lemma_last_member(before, k, v);
    } else {
        let more = ms.skip(1);
        assert(ms =~= seq![(k, v)] + more);
        lemma_next_member(before, k, v, more);
        lemma_in_order(named(before, k, v) + seq![','], more);
    }
}

proof fn lemma_lookup_at(ms: Seq<(Seq<char>, Json)>, i: int)
    requires
        0 <= i < ms.len(),
        forall|j: int| 0 <= j < i ==> (#[trigger] ms[j]).0 != ms[i].0,
    ensures
        lookup(ms, ms[i].0) == Some(ms[i].1),
    decreases i,
{
    let (k, v) = ms[0];
    let more = ms.skip(1);
    assert(ms =~= seq![(k, v)] + more);
    lemma_lookup_next(k, v, more, ms[i].0);
    if i > 0 {
        assert(more[i - 1] == ms[i]);
        assert forall|j: int| 0 <= j < i - 1 implies (#[trigger] more[j]).0 != more[i - 1].0 by {
            assert(more[j] == ms[j + 1]);
        }
        lemma_lookup_at(more, i - 1);
    }
}

proof fn lemma_entry_keys()
    ensures
        is_plain("latency_us"@),
        is_plain("method"@),
        is_plain("path"@),
        is_plain("remote"@),
        is_plain("status"@),
        is_plain("ts"@),
        is_plain("ua"@),
        "{\"latency_us\":"@ == lead(seq!['{'], "latency_us"@),
        ",\"method\":"@ == lead(seq![','], "method"@),
        ",\"path\":"@ == lead(seq![','], "path"@),
        ",\"remote\":"@ == lead(seq![','], "remote"@),
        ",\"status\":"@ == lead(seq![','], "status"@),
        ",\"ts\":"@ == lead(seq![','], "ts"@),
        ",\"ua\":"@ == lead(seq![','], "ua"@),
        "}"@ == seq!['}'],
        "latency_us"@.len() == 10,
        "method"@.len() == 6 && "method"@[0] == 'm',
        "path"@.len() == 4,
        "remote"@.len() == 6 && "remote"@[0] == 'r',
        "status"@.len() == 6 && "status"@[0] == 's',
        "ts"@.len() == 2 && "ts"@[0] == 't',
        "ua"@.len() == 2 && "ua"@[0] == 'u',
{
    reveal_strlit("latency_us");
    reveal_strlit("method");
    reveal_strlit("path");
    reveal_strlit("remote");
    reveal_strlit("status");
    reveal_strlit("ts");
    reveal_strlit("ua");
    reveal_strlit("{\"latency_us\":");
    reveal_strlit(",\"method\":");
    reveal_strlit(",\"path\":");
    reveal_strlit(",\"remote\":");
    reveal_strlit(",\"status\":");
    reveal_strlit(",\"ts\":");
    reveal_strlit(",\"ua\":");
    reveal_strlit("}");
    assert("{\"latency_us\":"@ =~= lead(seq!['{'], "latency_us"@));
    assert(",\"method\":"@ =~= lead(seq![','], "method"@));
    assert(",\"path\":"@ =~= lead(seq![','], "path"@));
    assert(",\"remote\":"@ =~= lead(seq![','], "remote"@));
    assert(",\"status\":"@ =~= lead(seq![','], "status"@));
    assert(",\"ts\":"@ =~= lead(seq![','], "ts"@));
    assert(",\"ua\":"@ =~= lead(seq![','], "ua"@));
    assert("}"@ =~= seq!['}']);
}

proof fn lemma_entry_text(e: AuditEntry)
    ensures
        audit_line(e) == text_of(entry_doc(e)),
{
    lemma_entry_keys();
    let m1 = ("latency_us"@, Json::Num(e.latency_us as nat));
    let m2 = ("method"@, Json::Text(e.method@));
    let m3 = ("path"@, Json::Text(e.path@));
    let m4 = ("remote"@, Json::Text(e.remote@));
    let m5 = ("status"@, Json::Num(e.status as nat));
    let m6 = ("ts"@, Json::Text(e.ts@));
    let m7 = ("ua"@, Json::Text(e.ua@));
    let ms = seq![m1, m2, m3, m4, m5, m6, m7];
    assert forall|i: int| 0 <= i < ms.len() implies is_plain((#[trigger] ms[i]).0) by {
        assert(i == 0 || i == 1 || i == 2 || i == 3 || i == 4 || i == 5 || i == 6);
    }
    lemma_in_order(seq!['{'], ms);
    let t1 = named(seq!['{'], m1.0, m1.1);
    let t2 = named(t1 + seq![','], m2.0, m2.1);
    let t3 = named(t2 + seq![','], m3.0, m3.1);
    let t4 = named(t3 + seq![','], m4.0, m4.1);
    let t5 = named(t4 + seq![','], m5.0, m5.1);
    let t6 = named(t5 + seq![','], m6.0, m6.1);
    let t7 = named(t6 + seq![','], m7.0, m7.1);
    assert(ms.skip(1) =~= seq![m2, m3, m4, m5, m6, m7]);
    assert(ms.skip(1).skip(1) =~= seq![m3, m4, m5, m6, m7]);
    assert(seq![m3, m4, m5, m6, m7].skip(1) =~= seq![m4, m5, m6, m7]);
    assert(seq![m4, m5, m6, m7].skip(1) =~= seq![m5, m6, m7]);
    assert(seq![m5, m6, m7].skip(1) =~= seq![m6, m7]);
    assert(seq![m6, m7].skip(1) =~= seq![m7]);
    assert(in_order(t6 + seq![','], seq![m7]) == t7);
    assert(in_order(t5 + seq![','], seq![m6, m7]) == t7);
    assert(in_order(t4 + seq![','], seq![m5, m6, m7]) == t7);
    assert(in_order(t3 + seq![','], seq![m4, m5, m6, m7]) == t7);
    assert(in_order(t2 + seq![','], seq![m3, m4, m5, m6, m7]) == t7);
    assert(in_order(t1 + seq![','], ms.skip(1)) == t7);
    assert(in_order(seq!['{'], ms) == t7);
    lemma_lead(t1, seq![','], "method"@);
    lemma_lead(t2, seq![','], "path"@);
    lemma_lead(t3, seq![','], "remote"@);
    lemma_lead(t4, seq![','], "status"@);
    lemma_lead(t5, seq![','], "ts"@);
    lemma_lead(t6, seq![','], "ua"@);
    assert(text_of(entry_doc(e)) == t7 + seq!['}']);
}

/// Who reads a line of the log finds what was logged, each thing under its own
/// name.
pub proof fn law_audit_entry_reads_back(e: AuditEntry)
    ensures
        ({
            &&& document(audit_line(e)) matches Some(d)
            &&& number_at(d, "latency_us"@) == Some(e.latency_us as nat)
            &&& text_at(d, "method"@) == Some(e.method@)
            &&& text_at(d, "path"@) == Some(e.path@)
            &&& text_at(d, "remote"@) == Some(e.remote@)
            &&& number_at(d, "status"@) == Some(e.status as nat)
            &&& text_at(d, "ts"@) == Some(e.ts@)
            &&& text_at(d, "ua"@) == Some(e.ua@)
        }),
{
    lemma_entry_text(e);
    law_documents_read_back(entry_doc(e));
    lemma_entry_keys();
    let ms = entry_doc(e)->Members_0;
    lemma_lookup_at(ms, 0);
    lemma_lookup_at(ms, 1);
    lemma_lookup_at(ms, 2);
    lemma_lookup_at(ms, 3);
    lemma_lookup_at(ms, 4);
    lemma_lookup_at(ms, 5);
    lemma_lookup_at(ms, 6);
}

// ---------------------------------------------------------------------
// Requests and gauges
// ---------------------------------------------------------------------

/// A request starts with its method and path, says how many bytes its body
/// has, and ends with that body.
pub proof fn law_request_carries_its_call(c: Call)
    ensures
        exists|head: Seq<char>|
            #![trigger head + "\r\n\r\n"@]
            {
                &&& request(c) == head + "\r\n\r\n"@ + c.body
                &&& (c.method + " "@ + c.path + " HTTP/1.1\r\n"@).is_prefix_of(head)
                &&& ("\r\nContent-Length: "@ + dec(encode_utf8(c.body).len())).is_suffix_of(head)
            },
{
    let mid =
        " HTTP/1.1\r\nHost: localhost\r\nAccept: application/json\r\nContent-Type: application/json\r\nContent-Length: "@;
    reveal_strlit(
        " HTTP/1.1\r\nHost: localhost\r\nAccept: application/json\r\nContent-Type: application/json\r\nContent-Length: ",
    );
    reveal_strlit(" HTTP/1.1\r\n");
    reveal_strlit("\r\nContent-Length: ");
    let line = c.method + " "@ + c.path;
    let n = dec(encode_utf8(c.body).len());
    let head = line + mid + n;
    let first = " HTTP/1.1\r\n"@;
    let last = "\r\nContent-Length: "@;
    assert(mid.take(first.len() as int) =~= first);
    assert(mid.skip(mid.len() - last.len()) =~= last);
    lemma_ends(line, mid, n, first, last);
    assert(request(c) == head + "\r\n\r\n"@ + c.body);
}

proof fn lemma_ends(
    line: Seq<char>,
    mid: Seq<char>,
    n: Seq<char>,
    first: Seq<char>,
    last: Seq<char>,
)
    requires
        first.len() <= mid.len(),
        last.len() <= mid.len(),
        mid.take(first.len() as int) == first,
        mid.skip(mid.len() - last.len()) == last,
    ensures
        (line + first).is_prefix_of(line + mid + n),
        (last + n).is_suffix_of(line + mid + n),
{
    let head = line + mid + n;
    assert(mid =~= first + mid.skip(first.len() as int));
    assert(mid =~= mid.take(mid.len() - last.len()) + last);
    assert(head.take((line + first).len() as int) =~= line + first);
    assert(head.skip(head.len() - (last + n).len()) =~= last + n);
}

/// Whether a scrape finds the gauge `name` with this value, on a line of its
/// own.
pub open spec fn shows(text: Seq<char>, name: Seq<char>, value: nat) -> bool {
    occurs(text, seq!['\n'] + name + seq![' '] + dec(value) + seq!['\n'])
}

proof fn lemma_shows(a: Seq<char>, lit: Seq<char>, name: Seq<char>, value: nat, b: Seq<char>)
    requires
        b.len() > 0 && b[0] == '\n',
        lit.len() >= name.len() + 2,
        lit.skip(lit.len() - name.len() - 2) == seq!['\n'] + name + seq![' '],
    ensures
        shows(a + lit + dec(value) + b, name, value),
{
    let text = a + lit + dec(value) + b;
    let key = seq!['\n'] + name + seq![' '];
    let p = key + dec(value) + seq!['\n'];
    let at = lit.len() - key.len();
    let i = a.len() + at;
    assert forall|j: int| 0 <= j < p.len() implies text[i + j] == p[j] by {
        if j < key.len() {
            assert(lit.skip(at)[j] == lit[at + j]);
        }
    }
    assert(text.subrange(i, i + p.len()) =~= p);
    assert(occurs_at(text, p, i));
}

proof fn lemma_still_shows(text: Seq<char>, more: Seq<char>, name: Seq<char>, value: nat)
    requires
        shows(text, name, value),
    ensures
        shows(text + more, name, value),
{
    let p = seq!['\n'] + name + seq![' '] + dec(value) + seq!['\n'];
    let i = choose|i: int| occurs_at(text, p, i);
    assert((text + more).subrange(i, i + p.len()) =~= text.subrange(i, i + p.len()));
    assert(occurs_at(text + more, p, i));
}

proof fn lemma_gauge_snapshots_total()
    ensures
        ({
            let lit =
                "# HELP forkd_snapshots_total Number of snapshots known to the controller.\n# TYPE forkd_snapshots_total gauge\nforkd_snapshots_total "@;
            &&& lit.len() >= "forkd_snapshots_total"@.len() + 2
            &&& lit.skip(lit.len() - "forkd_snapshots_total"@.len() - 2) == seq!['\n'] + "forkd_snapshots_total"@ + seq![' ']
        }),
        ({
            let lit =
                "\n# HELP forkd_sandboxes_active Number of active sandboxes (child VMs).\n# TYPE forkd_sandboxes_active gauge\nforkd_sandboxes_active "@;
            lit.len() > 0 && lit[0] == '\n'
        }),
{
    reveal_strlit(
        "# HELP forkd_snapshots_total Number of snapshots known to the controller.\n# TYPE forkd_snapshots_total gauge\nforkd_snapshots_total ",
    );
    reveal_strlit(
        "\n# HELP forkd_sandboxes_active Number of active sandboxes (child VMs).\n# TYPE forkd_sandboxes_active gauge\nforkd_sandboxes_active ",
    );
    reveal_strlit("forkd_snapshots_total");
    let lit =
        "# HELP forkd_snapshots_total Number of snapshots known to the controller.\n# TYPE forkd_snapshots_total gauge\nforkd_snapshots_total "@;
    assert(lit.skip(lit.len() - "forkd_snapshots_total"@.len() - 2) =~= seq!['\n'] + "forkd_snapshots_total"@ + seq![' ']);
}

proof fn lemma_gauge_sandboxes_active()
    ensures
        ({
            let lit =
                "\n# HELP forkd_sandboxes_active Number of active sandboxes (child VMs).\n# TYPE forkd_sandboxes_active gauge\nforkd_sandboxes_active "@;
            &&& lit.len() >= "forkd_sandboxes_active"@.len() + 2
            &&& lit.skip(lit.len() - "forkd_sandboxes_active"@.len() - 2) == seq!['\n'] + "forkd_sandboxes_active"@ + seq![' ']
        }),
        ({
            let lit =
                "\n# HELP forkd_branches_in_flight Number of BRANCH operations currently writing memory.bin.\n# TYPE forkd_branches_in_flight gauge\nforkd_branches_in_flight "@;
            lit.len() > 0 && lit[0] == '\n'
        }),
{
    reveal_strlit(
        "\n# HELP forkd_sandboxes_active Number of active sandboxes (child VMs).\n# TYPE forkd_sandboxes_active gauge\nforkd_sandboxes_active ",
    );
    reveal_strlit(
        "\n# HELP forkd_branches_in_flight Number of BRANCH operations currently writing memory.bin.\n# TYPE forkd_branches_in_flight gauge\nforkd_branches_in_flight ",
    );
    reveal_strlit("forkd_sandboxes_active");
    let lit =
        "\n# HELP forkd_sandboxes_active Number of active sandboxes (child VMs).\n# TYPE forkd_sandboxes_active gauge\nforkd_sandboxes_active "@;
    assert(lit.skip(lit.len() - "forkd_sandboxes_active"@.len() - 2) =~= seq!['\n'] + "forkd_sandboxes_active"@ + seq![' ']);
}

proof fn lemma_gauge_branches_in_flight()
    ensures
        ({
            let lit =
                "\n# HELP forkd_branches_in_flight Number of BRANCH operations currently writing memory.bin.\n# TYPE forkd_branches_in_flight gauge\nforkd_branches_in_flight "@;
            &&& lit.len() >= "forkd_branches_in_flight"@.len() + 2
            &&& lit.skip(lit.len() - "forkd_branches_in_flight"@.len() - 2) == seq!['\n'] + "forkd_branches_in_flight"@ + seq![' ']
        }),
        ({
            let lit =
                "\n# HELP forkd_branch_concurrency_cap Configured maximum concurrent BRANCH operations.\n# TYPE forkd_branch_concurrency_cap gauge\nforkd_branch_concurrency_cap "@;
            lit.len() > 0 && lit[0] == '\n'
        }),
{
    reveal_strlit(
        "\n# HELP forkd_branches_in_flight Number of BRANCH operations currently writing memory.bin.\n# TYPE forkd_branches_in_flight gauge\nforkd_branches_in_flight ",
    );
    reveal_strlit(
        "\n# HELP forkd_branch_concurrency_cap Configured maximum concurrent BRANCH operations.\n# TYPE forkd_branch_concurrency_cap gauge\nforkd_branch_concurrency_cap ",
    );
    reveal_strlit("forkd_branches_in_flight");
    let lit =
        "\n# HELP forkd_branches_in_flight Number of BRANCH operations currently writing memory.bin.\n# TYPE forkd_branches_in_flight gauge\nforkd_branches_in_flight "@;
    assert(lit.skip(lit.len() - "forkd_branches_in_flight"@.len() - 2) =~= seq!['\n'] + "forkd_branches_in_flight"@ + seq![' ']);
}

proof fn lemma_gauge_branch_concurrency_cap()
    ensures
        ({
            let lit =
                "\n# HELP forkd_branch_concurrency_cap Configured maximum concurrent BRANCH operations.\n# TYPE forkd_branch_concurrency_cap gauge\nforkd_branch_concurrency_cap "@;
            &&& lit.len() >= "forkd_branch_concurrency_cap"@.len() + 2
            &&& lit.skip(lit.len() - "forkd_branch_concurrency_cap"@.len() - 2) == seq!['\n'] + "forkd_branch_concurrency_cap"@ + seq![' ']
        }),
        ({
            let lit =
                "\n# HELP forkd_build_info Build version of the controller binary.\n# TYPE forkd_build_info gauge\nforkd_build_info{version=\""@;
            lit.len() > 0 && lit[0] == '\n'
        }),
{
    reveal_strlit(
        "\n# HELP forkd_branch_concurrency_cap Configured maximum concurrent BRANCH operations.\n# TYPE forkd_branch_concurrency_cap gauge\nforkd_branch_concurrency_cap ",
    );
    reveal_strlit(
        "\n# HELP forkd_build_info Build version of the controller binary.\n# TYPE forkd_build_info gauge\nforkd_build_info{version=\"",
    );
    reveal_strlit("forkd_branch_concurrency_cap");
    let lit =
        "\n# HELP forkd_branch_concurrency_cap Configured maximum concurrent BRANCH operations.\n# TYPE forkd_branch_concurrency_cap gauge\nforkd_branch_concurrency_cap "@;
    assert(lit.skip(lit.len() - "forkd_branch_concurrency_cap"@.len() - 2) =~= seq!['\n'] + "forkd_branch_concurrency_cap"@ + seq![' ']);
}

/// A scrape finds every gauge under its own name with its own value.
pub proof fn law_scrape_shows_each_gauge(
    snapshots: nat,
    sandboxes: nat,
    in_flight: nat,
    cap: nat,
    build: Seq<char>,
)
    ensures
        shows(metrics_text(snapshots, sandboxes, in_flight, cap, build), "forkd_snapshots_total"@, snapshots),
        shows(metrics_text(snapshots, sandboxes, in_flight, cap, build), "forkd_sandboxes_active"@, sandboxes),
        shows(metrics_text(snapshots, sandboxes, in_flight, cap, build), "forkd_branches_in_flight"@, in_flight),
        shows(metrics_text(snapshots, sandboxes, in_flight, cap, build), "forkd_branch_concurrency_cap"@, cap),
{
    let l1 =
        "# HELP forkd_snapshots_total Number of snapshots known to the controller.\n# TYPE forkd_snapshots_total gauge\nforkd_snapshots_total "@;
    let l2 =
        "\n# HELP forkd_sandboxes_active Number of active sandboxes (child VMs).\n# TYPE forkd_sandboxes_active gauge\nforkd_sandboxes_active "@;
    let l3 =
        "\n# HELP forkd_branches_in_flight Number of BRANCH operations currently writing memory.bin.\n# TYPE forkd_branches_in_flight gauge\nforkd_branches_in_flight "@;
    let l4 =
        "\n# HELP forkd_branch_concurrency_cap Configured maximum concurrent BRANCH operations.\n# TYPE forkd_branch_concurrency_cap gauge\nforkd_branch_concurrency_cap "@;
    let l5 =
        "\n# HELP forkd_build_info Build version of the controller binary.\n# TYPE forkd_build_info gauge\nforkd_build_info{version=\""@;
    lemma_gauge_snapshots_total();
    lemma_gauge_sandboxes_active();
    lemma_gauge_branches_in_flight();
    lemma_gauge_branch_concurrency_cap();
    let a1 = l1 + dec(snapshots);
    let a2 = a1 + l2 + dec(sandboxes);
    let a3 = a2 + l3 + dec(in_flight);
    let a4 = a3 + l4 + dec(cap);
    let none = Seq::<char>::empty();
    assert(none + l1 =~= l1);
    lemma_shows(none, l1, "forkd_snapshots_total"@, snapshots, l2);
    lemma_shows(a1, l2, "forkd_sandboxes_active"@, sandboxes, l3);
    lemma_shows(a2, l3, "forkd_branches_in_flight"@, in_flight, l4);
    lemma_shows(a3, l4, "forkd_branch_concurrency_cap"@, cap, l5);
    lemma_still_shows(a1 + l2, dec(sandboxes), "forkd_snapshots_total"@, snapshots);
    lemma_still_shows(a2, l3, "forkd_snapshots_total"@, snapshots);
    lemma_still_shows(a2 + l3, dec(in_flight), "forkd_snapshots_total"@, snapshots);
    lemma_still_shows(a2 + l3, dec(in_flight), "forkd_sandboxes_active"@, sandboxes);
    lemma_still_shows(a3, l4, "forkd_snapshots_total"@, snapshots);
    lemma_still_shows(a3, l4, "forkd_sandboxes_active"@, sandboxes);
    lemma_still_shows(a3 + l4, dec(cap), "forkd_snapshots_total"@, snapshots);
    lemma_still_shows(a3 + l4, dec(cap), "forkd_sandboxes_active"@, sandboxes);
    lemma_still_shows(a3 + l4, dec(cap), "forkd_branches_in_flight"@, in_flight);
    lemma_still_shows(a4, l5, "forkd_snapshots_total"@, snapshots);
    lemma_still_shows(a4, l5, "forkd_sandboxes_active"@, sandboxes);
    lemma_still_shows(a4, l5, "forkd_branches_in_flight"@, in_flight);
    let b = a4 + l5;
    let c = b + build;
    lemma_still_shows(b, build, "forkd_snapshots_total"@, snapshots);
    lemma_still_shows(c, "\"} 1\n"@, "forkd_snapshots_total"@, snapshots);
    lemma_still_shows(b, build, "forkd_sandboxes_active"@, sandboxes);
    lemma_still_shows(c, "\"} 1\n"@, "forkd_sandboxes_active"@, sandboxes);
    lemma_still_shows(b, build, "forkd_branches_in_flight"@, in_flight);
    lemma_still_shows(c, "\"} 1\n"@, "forkd_branches_in_flight"@, in_flight);
    lemma_still_shows(b, build, "forkd_branch_concurrency_cap"@, cap);
    lemma_still_shows(c, "\"} 1\n"@, "forkd_branch_concurrency_cap"@, cap);
}

/// The gauges count what the daemon knows: its registered snapshots, its
/// sandboxes, the branches that are being written and how many there may be.
pub proof fn law_gauges_count_what_is_there(s: AppState, build: Seq<char>)
    ensures
        shows(s.scraped(build), "forkd_snapshots_total"@, s.registry.snapshots().dom().len()),
        shows(s.scraped(build), "forkd_sandboxes_active"@, s.registry.sandboxes().dom().len()),
        shows(s.scraped(build), "forkd_branches_in_flight"@, s.branches.held().len()),
        shows(s.scraped(build), "forkd_branch_concurrency_cap"@, s.branches.cap()),
{
    law_scrape_shows_each_gauge(
        s.registry.snapshots().dom().len(),
        s.registry.sandboxes().dom().len(),
        s.branches.held().len(),
        s.branches.cap(),
        build,
    );
}

} // verus!

//! `flint who`: which runs are in this directory, which are elsewhere, and how that is said.
//!
//! The records come from the presence files the runs keep; reading them is the caller's. What
//! is decided here is which records are this directory's and how the count of the others is
//! put.
use vstd::prelude::*;

use crate::json::{compact_text, count, has_keys, is_count, is_text, json_text, text, Json};
use crate::text::{chars_of, decimal, decimal_chars, extend_chars, extend_str, no_break, string_of};

verus! {

/// A run as its presence record describes it.
#[derive(Debug)]
pub struct Presence {
    pub pid: u32,
    /// The directory the run works in, as written.
    pub cwd: String,
    pub provider: String,
    pub model: String,
    pub readonly: bool,
    /// When it started and when it last refreshed its record, in seconds since the epoch.
    pub started: u64,
    pub last_seen: u64,
    /// The conversation file it writes; empty when it has not said.
    pub session: String,
}

/// The places, from the `i`-th on and in order, of the records whose directory is (`here`)
/// or is not (`!here`) the one asked about.
pub open spec fn places(records: Seq<Presence>, cwd: Seq<char>, here: bool, n: int) -> Seq<usize>
    decreases n,
{
    if n <= 0 {
        Seq::empty()
    } else {
        let before = places(records, cwd, here, n - 1);
        if (records[n - 1].cwd@ == cwd) == here {
            before.push((n - 1) as usize)
        } else {
            before
        }
    }
}

/// The records split into those of this directory and the others, each kept in the order
/// they were read, by their places in the list.
pub fn split_here(cwd: &str, records: &[Presence]) -> (r: (Vec<usize>, Vec<usize>))
    ensures
        r.0@ == places(records@, cwd@, true, records@.len() as int),
        r.1@ == places(records@, cwd@, false, records@.len() as int),
{
    let target = chars_of(cwd);
    let mut here: Vec<usize> = Vec::new();
    let mut elsewhere: Vec<usize> = Vec::new();
    let mut i: usize = 0;
    while i < records.len()
        invariant
            i <= records@.len(),
            target@ == cwd@,
            here@ == places(records@, cwd@, true, i as int),
            elsewhere@ == places(records@, cwd@, false, i as int),
        decreases records@.len() - i,
    {
        let this = chars_of(records[i].cwd.as_str());
        if crate::text::chars_eq(&this, &target) {
            here.push(i);
        } else {
            elsewhere.push(i);
        }
        i = i + 1;
    }
    (here, elsewhere)
}

/// The line that counts the runs elsewhere, when there are any: `run` or `runs`, and a
/// pointer to `--all` unless that is what was asked.
pub open spec fn elsewhere_line_spec(count: nat, all: bool) -> Option<Seq<char>> {
    if count == 0 {
        None
    } else {
        Some(
            "  ("@ + decimal(count) + " other "@ + (if count == 1 {
                "run"@
            } else {
                "runs"@
            }) + " live elsewhere on this machine"@ + (if all {
                ""@
            } else {
                " -- `flint who --all` names them"@
            }) + ")"@,
        )
    }
}

/// The line that counts the runs elsewhere.
pub fn elsewhere_line(count: usize, all: bool) -> (r: Option<String>)
    ensures
        crate::text::ov(r) == elsewhere_line_spec(count as nat, all),
{
    if count == 0 {
        return None;
    }
    let mut out = chars_of("  (");
    extend_chars(&mut out, &decimal_chars(count as u64));
    extend_str(&mut out, " other ");
    extend_str(&mut out, if count == 1 { "run" } else { "runs" });
    extend_str(&mut out, " live elsewhere on this machine");
    extend_str(&mut out, if all { "" } else { " -- `flint who --all` names them" });
    extend_str(&mut out, ")");
    Some(string_of(&out))
}

/// Every record is counted once: each is either this directory's or another's, and the two
/// lists together are as long as the list read.
pub proof fn law_every_run_is_counted_once(records: Seq<Presence>, cwd: Seq<char>, n: int)
    requires
        0 <= n <= records.len() <= usize::MAX,
    ensures
        places(records, cwd, true, n).len() + places(records, cwd, false, n).len() == n,
        forall|k: int|
            #![trigger places(records, cwd, true, n)[k]]
            0 <= k < places(records, cwd, true, n).len() ==> places(records, cwd, true, n)[k] < n
                && records[places(records, cwd, true, n)[k] as int].cwd@ == cwd,
        forall|k: int|
            #![trigger places(records, cwd, false, n)[k]]
            0 <= k < places(records, cwd, false, n).len() ==> places(records, cwd, false, n)[k] < n
                && records[places(records, cwd, false, n)[k] as int].cwd@ != cwd,
    decreases n,
{
    if n > 0 {
        law_every_run_is_counted_once(records, cwd, n - 1);
        let h0 = places(records, cwd, true, n - 1);
        let e0 = places(records, cwd, false, n - 1);
        let h = places(records, cwd, true, n);
        let e = places(records, cwd, false, n);
        assert forall|k: int| #![trigger h[k]] 0 <= k < h.len() implies h[k] < n && records[h[k] as int].cwd@
            == cwd by {
            if k < h0.len() {
                assert(h[k] == h0[k]);
            } else {
                assert(h[k] == (n - 1) as usize);
            }
        }
        assert forall|k: int| #![trigger e[k]] 0 <= k < e.len() implies e[k] < n && records[e[k] as int].cwd@
            != cwd by {
            if k < e0.len() {
                assert(e[k] == e0[k]);
            } else {
                assert(e[k] == (n - 1) as usize);
            }
        }
    }
}

// =======================================================================================
// The report, as one JSON object
// =======================================================================================

/// What the report says of where it looks from: `live` and `stale` are runs only, and the
/// changes name no author.
pub const WHO_NOTE: &'static str = "`live` and `stale` are flint runs only. `changed` is what the filesystem shows and names no author: another agent that is not flint, an editor, or a person all look the same.";

/// How long ago something was, from `now`; never below zero.
pub open spec fn ago(now: u64, then: u64) -> u64 {
    if now >= then {
        (now - then) as u64
    } else {
        0
    }
}

/// Whether `j` is a run's record in the report: its directory, when it was last seen, its
/// model, its pid, its provider, whether it is read-only, how long ago it was seen, its
/// conversation (`null` when it has not said) and when it started.
pub open spec fn is_record(j: Json, r: Presence, now: u64) -> bool {
    &&& has_keys(
        j,
        seq![
            "cwd"@,
            "last_seen"@,
            "model"@,
            "pid"@,
            "provider"@,
            "readonly"@,
            "seen_secs_ago"@,
            "session"@,
            "started"@,
        ],
    )
    &&& is_text(j->Object_0@[0].1, r.cwd@)
    &&& is_count(j->Object_0@[1].1, r.last_seen)
    &&& is_text(j->Object_0@[2].1, r.model@)
    &&& is_count(j->Object_0@[3].1, r.pid as u64)
    &&& is_text(j->Object_0@[4].1, r.provider@)
    &&& (j->Object_0@[5].1 matches Json::Bool(b) && b == r.readonly)
    &&& is_count(j->Object_0@[6].1, ago(now, r.last_seen))
    &&& (if r.session@.len() == 0 {
        j->Object_0@[7].1 is Null
    } else {
        is_text(j->Object_0@[7].1, r.session@)
    })
    &&& is_count(j->Object_0@[8].1, r.started)
}

/// Whether `j` is the list of the records at these places, in order.
pub open spec fn records_at(j: Json, rs: Seq<Presence>, at: Seq<usize>, now: u64) -> bool {
    &&& j is Array
    &&& j->Array_0@.len() == at.len()
    &&& forall|i: int|
        0 <= i < at.len() ==> at[i] < rs.len() && is_record(
            #[trigger] j->Array_0@[i],
            rs[at[i] as int],
            now,
        )
}

/// Whether `j` is a list of `{path, secs_ago}` objects, one per entry.
pub open spec fn paths_ago(j: Json, es: Seq<(String, u64)>) -> bool {
    &&& j is Array
    &&& j->Array_0@.len() == es.len()
    &&& forall|i: int|
        0 <= i < es.len() ==> has_keys(#[trigger] j->Array_0@[i], seq!["path"@, "secs_ago"@])
            && is_text(j->Array_0@[i]->Object_0@[0].1, es[i].0@) && is_count(
            j->Array_0@[i]->Object_0@[1].1,
            es[i].1,
        )
}

/// Whether `j` is the list of files that could not be read, each `{error, path}`.
pub open spec fn unreadable_list(j: Json, es: Seq<(String, String)>) -> bool {
    &&& j is Array
    &&& j->Array_0@.len() == es.len()
    &&& forall|i: int|
        0 <= i < es.len() ==> has_keys(#[trigger] j->Array_0@[i], seq!["error"@, "path"@])
            && is_text(j->Array_0@[i]->Object_0@[0].1, es[i].1@) && is_text(
            j->Array_0@[i]->Object_0@[1].1,
            es[i].0@,
        )
}

/// What changed in the directory lately, as the report has it.
pub struct Recent {
    /// How far back the look went, in seconds.
    pub window_secs: u64,
    /// How many paths git named.
    pub git_paths: usize,
    /// The files changed, each with how long ago.
    pub files: Vec<(String, u64)>,
    /// Why git could not answer, when it could not.
    pub note: Option<String>,
}

/// Whether `j` is the report's `changed` object: `{files, git_paths, note, window_secs}`.
pub open spec fn is_changed(j: Json, r: Recent) -> bool {
    &&& has_keys(j, seq!["files"@, "git_paths"@, "note"@, "window_secs"@])
    &&& paths_ago(j->Object_0@[0].1, r.files@)
    &&& is_count(j->Object_0@[1].1, r.git_paths as u64)
    &&& match r.note {
        Some(n) => is_text(j->Object_0@[2].1, n@),
        None => j->Object_0@[2].1 is Null,
    }
    &&& is_count(j->Object_0@[3].1, r.window_secs)
}

/// Whether `j` is the report of `flint who --json` for the directory `cwd`: the runs alive
/// there and the stale records there, how many runs are alive elsewhere (and, with `--all`,
/// which, as the last member), what changed lately, the newest conversation, the presence
/// files that could not be read, and the note on what the lists are.
pub open spec fn is_who_report(
    j: Json,
    cwd: Seq<char>,
    alive: Seq<Presence>,
    stale: Seq<Presence>,
    all: bool,
    now: u64,
    recent: Recent,
    newest: Option<(String, u64)>,
    unreadable: Seq<(String, String)>,
) -> bool {
    let here = places(alive, cwd, true, alive.len() as int);
    let elsewhere = places(alive, cwd, false, alive.len() as int);
    let stale_here = places(stale, cwd, true, stale.len() as int);
    let keys = seq![
        "changed"@,
        "cwd"@,
        "live"@,
        "newest_session"@,
        "note"@,
        "other_live"@,
        "stale"@,
        "type"@,
        "unreadable"@,
    ];
    let m = j->Object_0@;
    &&& has_keys(j, if all {
        keys.push("live_elsewhere"@)
    } else {
        keys
    })
    &&& is_changed(m[0].1, recent)
    &&& is_text(m[1].1, cwd)
    &&& records_at(m[2].1, alive, here, now)
    &&& match newest {
        Some((path, age)) => has_keys(m[3].1, seq!["path"@, "secs_ago"@]) && is_text(
            m[3].1->Object_0@[0].1,
            path@,
        ) && is_count(m[3].1->Object_0@[1].1, age),
        None => m[3].1 is Null,
    }
    &&& is_text(m[4].1, WHO_NOTE@)
    &&& is_count(m[5].1, elsewhere.len() as u64)
    &&& records_at(m[6].1, stale, stale_here, now)
    &&& is_text(m[7].1, "who"@)
    &&& unreadable_list(m[8].1, unreadable)
    &&& all ==> records_at(m[9].1, alive, elsewhere, now)
}

fn member(key: &str, value: Json) -> (m: (String, Json))
    ensures
        m.0@ == key@,
        m.1 == value,
{
    (key.to_owned(), value)
}

fn record_json(r: &Presence, now: u64) -> (j: Json)
    ensures
        is_record(j, *r, now),
{
    let mut m: Vec<(String, Json)> = Vec::new();
    m.push(member("cwd", text(r.cwd.as_str())));
    m.push(member("last_seen", count(r.last_seen)));
    m.push(member("model", text(r.model.as_str())));
    m.push(member("pid", count(r.pid as u64)));
    m.push(member("provider", text(r.provider.as_str())));
    m.push(member("readonly", Json::Bool(r.readonly)));
    m.push(member("seen_secs_ago", count(now.saturating_sub(r.last_seen))));
    let session = if chars_of(r.session.as_str()).len() == 0 {
        Json::Null
    } else {
        text(r.session.as_str())
    };
    m.push(member("session", session));
    m.push(member("started", count(r.started)));
    Json::Object(m)
}

fn records_json(rs: &[Presence], at: &Vec<usize>, now: u64) -> (j: Json)
    requires
        forall|i: int| 0 <= i < at@.len() ==> at@[i] < rs@.len(),
    ensures
        records_at(j, rs@, at@, now),
{
    let mut l: Vec<Json> = Vec::new();
    let mut i: usize = 0;
    while i < at.len()
        invariant
            i <= at@.len(),
            l@.len() == i,
            forall|k: int| 0 <= k < at@.len() ==> at@[k] < rs@.len(),
            forall|k: int| 0 <= k < i ==> is_record(#[trigger] l@[k], rs@[at@[k] as int], now),
        decreases at@.len() - i,
    {
        l.push(record_json(&rs[at[i]], now));
        i = i + 1;
    }
    Json::Array(l)
}

proof fn lemma_places_in_range(records: Seq<Presence>, cwd: Seq<char>, here: bool, n: int)
    requires
        0 <= n <= records.len() <= usize::MAX,
    ensures
        forall|i: int|
            0 <= i < places(records, cwd, here, n).len() ==> #[trigger] places(
                records,
                cwd,
                here,
                n,
            )[i] < n,
    decreases n,
{
    if n > 0 {
        lemma_places_in_range(records, cwd, here, n - 1);
        let p0 = places(records, cwd, here, n - 1);
        let p = places(records, cwd, here, n);
        assert forall|i: int| 0 <= i < p.len() implies #[trigger] p[i] < n by {
            if i < p0.len() {
                assert(p[i] == p0[i]);
            }
        }
    }
}

/// `flint who --json`: the report for the directory `cwd`, from the presence records read
/// (alive and stale), the time now, what changed lately, the newest conversation and the
/// records that could not be read. The report is one line of JSON.
pub fn who_report(
    cwd: &str,
    alive: &[Presence],
    stale: &[Presence],
    all: bool,
    now: u64,
    recent: &Recent,
    newest: &Option<(String, u64)>,
    unreadable: &[(String, String)],
) -> (s: String)
    ensures
        exists|j: Json|
            is_who_report(j, cwd@, alive@, stale@, all, now, *recent, *newest, unreadable@) && s@
                == json_text(j),
        no_break(s@),
{
    let (here, elsewhere) = split_here(cwd, alive);
    let (stale_here, _) = split_here(cwd, stale);
    let alive_count = alive.len();
    let stale_count = stale.len();
    assert(alive@.len() == alive_count && stale@.len() == stale_count);
    proof {
        lemma_places_in_range(alive@, cwd@, true, alive@.len() as int);
        lemma_places_in_range(alive@, cwd@, false, alive@.len() as int);
        lemma_places_in_range(stale@, cwd@, true, stale@.len() as int);
    }
    let mut files: Vec<Json> = Vec::new();
    let mut i: usize = 0;
    while i < recent.files.len()
        invariant
            i <= recent.files@.len(),
            files@.len() == i,
            forall|k: int|
                0 <= k < i ==> has_keys(#[trigger] files@[k], seq!["path"@, "secs_ago"@])
                    && is_text(files@[k]->Object_0@[0].1, recent.files@[k].0@) && is_count(
                    files@[k]->Object_0@[1].1,
                    recent.files@[k].1,
                ),
        decreases recent.files@.len() - i,
    {
        let mut o: Vec<(String, Json)> = Vec::new();
        o.push(member("path", text(recent.files[i].0.as_str())));
        o.push(member("secs_ago", count(recent.files[i].1)));
        files.push(Json::Object(o));
        i = i + 1;
    }
    let mut changed: Vec<(String, Json)> = Vec::new();
    changed.push(member("files", Json::Array(files)));
    changed.push(member("git_paths", count(recent.git_paths as u64)));
    let note = match &recent.note {
        Some(n) => text(n.as_str()),
        None => Json::Null,
    };
    changed.push(member("note", note));
    changed.push(member("window_secs", count(recent.window_secs)));
    let newest_json = match newest {
        Some((path, age)) => {
            let mut o: Vec<(String, Json)> = Vec::new();
            o.push(member("path", text(path.as_str())));
            o.push(member("secs_ago", count(*age)));
            Json::Object(o)
        },
        None => Json::Null,
    };
    let mut bad: Vec<Json> = Vec::new();
    let mut k: usize = 0;
    while k < unreadable.len()
        invariant
            k <= unreadable@.len(),
            bad@.len() == k,
            forall|q: int|
                0 <= q < k ==> has_keys(#[trigger] bad@[q], seq!["error"@, "path"@]) && is_text(
                    bad@[q]->Object_0@[0].1,
                    unreadable@[q].1@,
                ) && is_text(bad@[q]->Object_0@[1].1, unreadable@[q].0@),
        decreases unreadable@.len() - k,
    {
        let mut o: Vec<(String, Json)> = Vec::new();
        o.push(member("error", text(unreadable[k].1.as_str())));
        o.push(member("path", text(unreadable[k].0.as_str())));
        bad.push(Json::Object(o));
        k = k + 1;
    }
    let mut m: Vec<(String, Json)> = Vec::new();
    m.push(member("changed", Json::Object(changed)));
    m.push(member("cwd", text(cwd)));
    m.push(member("live", records_json(alive, &here, now)));
    m.push(member("newest_session", newest_json));
    m.push(member("note", text(WHO_NOTE)));
    m.push(member("other_live", count(elsewhere.len() as u64)));
    m.push(member("stale", records_json(stale, &stale_here, now)));
    m.push(member("type", text("who")));
    m.push(member("unreadable", Json::Array(bad)));
    if all {
        m.push(member("live_elsewhere", records_json(alive, &elsewhere, now)));
    }
    let j = Json::Object(m);
    let s = compact_text(&j);
    assert(is_who_report(j, cwd@, alive@, stale@, all, now, *recent, *newest, unreadable@));
    s
}

} // verus!

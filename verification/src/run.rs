//! The decisions a run makes around its I/O: which command lines are refused before anything
//! is read, which stored session a name picks, and which exit code a failure ends with.
use vstd::prelude::*;

use crate::args::{Args, ArgsView};
use crate::provider::ProviderFailure;
use crate::args::{parse_u64, parse_u64_spec};
use crate::text::{chars_of, decimal, decimal_chars, extend_chars, extend_str, join_with, ov, starts_with, string_of, views};

verus! {

/// Everything went as asked.
pub const EXIT_OK: i32 = 0;
/// A failure whose cause is not known.
pub const EXIT_FAILURE: i32 = 1;
/// The command line is wrong; changing the arguments fixes it.
pub const EXIT_USAGE: i32 = 2;
/// The answer is not usable as it stands.
pub const EXIT_DATAERR: i32 = 65;
/// The provider cannot be used at all; asking again changes nothing.
pub const EXIT_UNAVAILABLE: i32 = 69;
/// A failure worth retrying, by a caller that can wait.
pub const EXIT_TEMPFAIL: i32 = 75;
/// The run was cut short.
pub const EXIT_INTERRUPTED: i32 = 130;

// =======================================================================================
// Exit codes
// =======================================================================================

/// The exit code a failure ends with, read from its cause: a retryable failure is worth
/// trying later; an exhausted balance, a key problem or a missing key needs a person; and a
/// failure with no known cause is a plain failure, unless the provider was already known to
/// be unusable when the run began.
pub open spec fn exit_code_spec(failure: Option<(Seq<char>, bool)>, provider_was_unusable: bool) -> i32 {
    match failure {
        None => if provider_was_unusable {
            EXIT_UNAVAILABLE
        } else {
            EXIT_FAILURE
        },
        Some((code, retryable)) => if retryable {
            EXIT_TEMPFAIL
        } else if code == "insufficient_balance"@ || code == "auth"@ || code == "no_key"@ {
            EXIT_UNAVAILABLE
        } else {
            EXIT_FAILURE
        },
    }
}

/// The exit code for a failure, from its cause.
pub fn exit_code_for(failure: Option<&ProviderFailure>, provider_was_unusable: bool) -> (code: i32)
    ensures
        code == exit_code_spec(
            match failure {
                Some(f) => Some((f.code@, f.retryable)),
                None => None,
            },
            provider_was_unusable,
        ),
{
    match failure {
        None => if provider_was_unusable {
            EXIT_UNAVAILABLE
        } else {
            EXIT_FAILURE
        },
        Some(f) => {
            if f.retryable {
                return EXIT_TEMPFAIL;
            }
            let code = chars_of(f.code);
            if crate::text::eq_str(&code, "insufficient_balance") || crate::text::eq_str(
                &code,
                "auth",
            ) || crate::text::eq_str(&code, "no_key") {
                EXIT_UNAVAILABLE
            } else {
                EXIT_FAILURE
            }
        },
    }
}

// =======================================================================================
// Command lines refused before the run starts
// =======================================================================================

pub open spec fn result_file_refusal() -> Seq<char> {
    "--result-file needs a prompt and --json: it exists so a caller does not have to read the stream, and with no --json the answer is already everything on stdout (redirect it instead)."@
}

pub open spec fn hear_peers_refusal() -> Seq<char> {
    "--hear-peers relays what a peer leaves between turns, and a one-shot run has no next turn to relay it in: start a session (no -p) and use /hear-peers there."@
}

pub open spec fn max_seconds_refusal() -> Seq<char> {
    "--max-seconds bounds a call, and a call is a prompt: give one with -p, or leave the flag off. An interactive session is bounded by whoever is typing at it."@
}

pub open spec fn no_session_refusal() -> Seq<char> {
    "--no-session writes no conversation, and --continue, --resume, --fork and --name all open or name one: give one or the other. A run that keeps nothing cannot continue, copy or name anything."@
}

/// The combinations a run refuses before it reads anything: an answer file without a
/// prompt and a stream, peers heard by a one-shot run, a time budget without a call to bound,
/// and a run that keeps nothing asked to continue, copy or name a conversation.
pub open spec fn usage_refusal_spec(a: ArgsView) -> Option<Seq<char>> {
    if a.result_file is Some && (!a.json || a.prompt is None) {
        Some(result_file_refusal())
    } else if a.hear_peers && a.prompt is Some {
        Some(hear_peers_refusal())
    } else if a.max_seconds is Some && a.prompt is None {
        Some(max_seconds_refusal())
    } else if a.no_session && (a.continue_last || a.resume is Some || a.fork is Some || a.name
        is Some) {
        Some(no_session_refusal())
    } else {
        None
    }
}

/// The sentence a run is refused with before it reads anything, if it is refused.
pub fn usage_refusal(args: &Args) -> (r: Option<String>)
    ensures
        ov(r) == usage_refusal_spec(args@),
{
    if args.result_file.is_some() && (!args.json || args.prompt.is_none()) {
        Some(
            "--result-file needs a prompt and --json: it exists so a caller does not have to read the stream, and with no --json the answer is already everything on stdout (redirect it instead).".to_owned(),
        )
    } else if args.hear_peers && args.prompt.is_some() {
        Some(
            "--hear-peers relays what a peer leaves between turns, and a one-shot run has no next turn to relay it in: start a session (no -p) and use /hear-peers there.".to_owned(),
        )
    } else if args.max_seconds.is_some() && args.prompt.is_none() {
        Some(
            "--max-seconds bounds a call, and a call is a prompt: give one with -p, or leave the flag off. An interactive session is bounded by whoever is typing at it.".to_owned(),
        )
    } else if args.no_session && (args.continue_last || args.resume.is_some()
        || args.fork.is_some() || args.name.is_some()) {
        Some(
            "--no-session writes no conversation, and --continue, --resume, --fork and --name all open or name one: give one or the other. A run that keeps nothing cannot continue, copy or name anything.".to_owned(),
        )
    } else {
        None
    }
}

/// `--archive` and `--delete` together are refused; and so is `--fork` beside `--resume` or
/// `--continue`, since one copies a session and the others write to the one they open.
pub open spec fn session_refusal_spec(a: ArgsView) -> Option<Seq<char>> {
    if a.archive is Some && a.delete is Some {
        Some("use either --archive or --delete, not both"@)
    } else if a.fork is Some && (a.continue_last || a.resume is Some) {
        Some(
            "--fork copies a session and --resume/--continue write to the one they open; give one"@,
        )
    } else {
        None
    }
}

/// The sentence a run that names sessions in two contradicting ways is refused with.
pub fn session_refusal(args: &Args) -> (r: Option<String>)
    ensures
        ov(r) == session_refusal_spec(args@),
{
    if args.archive.is_some() && args.delete.is_some() {
        Some("use either --archive or --delete, not both".to_owned())
    } else if args.fork.is_some() && (args.continue_last || args.resume.is_some()) {
        Some(
            "--fork copies a session and --resume/--continue write to the one they open; give one".to_owned(),
        )
    } else {
        None
    }
}

// =======================================================================================
// Which session a name picks
// =======================================================================================

/// A stored session: its id and where its file is.
#[derive(Debug)]
pub struct SessionEntry {
    pub id: String,
    pub path: String,
}

pub ghost struct EntryView {
    pub id: Seq<char>,
    pub path: Seq<char>,
}

impl View for SessionEntry {
    type V = EntryView;

    open spec fn view(&self) -> EntryView {
        EntryView { id: self.id@, path: self.path@ }
    }
}

pub open spec fn entry_views(v: Seq<SessionEntry>) -> Seq<EntryView> {
    v.map_values(|e: SessionEntry| e@)
}

/// The target without a `.jsonl` ending.
pub open spec fn id_prefix(target: Seq<char>) -> Seq<char>
    decreases target.len(),
{
    if target.len() >= 6 && target.subrange(target.len() - 6, target.len() as int) == ".jsonl"@ {
        id_prefix(target.subrange(0, target.len() - 6))
    } else {
        target
    }
}

/// The entries whose id starts with `prefix`, in order.
pub open spec fn matching(entries: Seq<EntryView>, prefix: Seq<char>) -> Seq<EntryView>
    decreases entries.len(),
{
    if entries.len() == 0 {
        Seq::<EntryView>::empty()
    } else {
        let rest = matching(entries.drop_last(), prefix);
        if starts_with(entries.last().id, prefix) {
            rest.push(entries.last())
        } else {
            rest
        }
    }
}

pub open spec fn entry_ids(v: Seq<EntryView>) -> Seq<Seq<char>> {
    v.map_values(|e: EntryView| e.id)
}

/// Which session a name picks, given the sessions listed (most recent first), the archived
/// ones, and whether the name is a file on disk: a number picks from the list (counting
/// from 1); otherwise an id prefix (a `.jsonl` ending dropped) that matches exactly one
/// session, listed or archived, picks it; otherwise a file of that name; otherwise nothing.
pub open spec fn pick_session_spec(
    target: Seq<char>,
    listed: Seq<EntryView>,
    archived: Seq<EntryView>,
    is_file: bool,
) -> Result<Seq<char>, Seq<char>> {
    match parse_u64_spec(target) {
        Some(n) => if n == 0 || n > listed.len() {
            Err(
                "no session "@ + decimal(n as nat) + ": /sessions lists "@
                    + decimal(listed.len()) + " (1 is the most recent)"@,
            )
        } else {
            Ok(listed[n - 1].path)
        },
        None => {
            let found = matching(listed + archived, id_prefix(target));
            if found.len() == 1 {
                Ok(found[0].path)
            } else if found.len() > 1 {
                Err(
                    "'"@ + target + "' matches "@ + decimal(found.len())
                        + " sessions: "@ + join_with(entry_ids(found), ", "@)
                        + ". Use a longer prefix."@,
                )
            } else if is_file {
                Ok(target)
            } else {
                Err(
                    "no session matches '"@ + target
                        + "'. Run `flint --list-sessions` or `/sessions`."@,
                )
            }
        },
    }
}

/// The name without its `.jsonl` endings.
fn strip_jsonl(target: &str) -> (p: Vec<char>)
    ensures
        p@ == id_prefix(target@),
{
    let mut v = chars_of(target);
    let ending = chars_of(".jsonl");
    while v.len() >= 6 && crate::text::range_eq(&v, v.len() - 6, v.len(), &ending)
        invariant
            id_prefix(v@) == id_prefix(target@),
            ending@ == ".jsonl"@,
        decreases v@.len(),
    {
        let n = v.len();
        let ghost before = v@;
        assert(before.subrange(n - 6, n as int) == ".jsonl"@);
        v.truncate(n - 6);
        assert(v@ =~= before.subrange(0, n - 6));
    }
    v
}

/// The entries whose id starts with `prefix`, appended to `out`.
fn collect_matching(entries: &[SessionEntry], prefix: &Vec<char>, out: &mut Vec<SessionEntry>)
    ensures
        entry_views(final(out)@) == entry_views(old(out)@) + matching(entry_views(entries@), prefix@),
{
    let ghost es = entry_views(entries@);
    let ghost o0 = entry_views(out@);
    let mut i: usize = 0;
    assert(es.subrange(0, 0) =~= Seq::<EntryView>::empty());
    assert(o0 + matching(es.subrange(0, 0), prefix@) =~= o0);
    while i < entries.len()
        invariant
            i <= entries@.len(),
            es == entry_views(entries@),
            entry_views(out@) == o0 + matching(es.subrange(0, i as int), prefix@),
        decreases entries@.len() - i,
    {
        let e = &entries[i];
        assert(es[i as int] == e@);
        let id = chars_of(e.id.as_str());
        let n = id.len();
        assert(id@.subrange(0, n as int) =~= id@);
        let ghost before = entry_views(out@);
        if crate::text::range_starts_with(&id, 0, n, prefix) {
            out.push(SessionEntry { id: e.id.clone(), path: e.path.clone() });
            assert(entry_views(out@) =~= before.push(e@));
        }
        assert(es.subrange(0, i + 1).drop_last() =~= es.subrange(0, i as int));
        i = i + 1;
    }
    assert(es.subrange(0, entries@.len() as int) =~= es);
}

/// Which session a name picks: a number from the list, an id prefix that matches exactly
/// one session (listed or archived), or a file of that name.
pub fn pick_session(target: &str, listed: &[SessionEntry], archived: &[SessionEntry], is_file: bool) -> (r:
    Result<String, String>)
    ensures
        match r {
            Ok(p) => pick_session_spec(target@, entry_views(listed@), entry_views(archived@), is_file)
                == Ok::<Seq<char>, Seq<char>>(p@),
            Err(e) => pick_session_spec(target@, entry_views(listed@), entry_views(archived@), is_file)
                == Err::<Seq<char>, Seq<char>>(e@),
        },
{
    match parse_u64(target) {
        Some(n) => {
            if n == 0 || n > listed.len() as u64 {
                let mut out: Vec<char> = Vec::new();
                extend_str(&mut out, "no session ");
                extend_chars(&mut out, &decimal_chars(n));
                extend_str(&mut out, ": /sessions lists ");
                extend_chars(&mut out, &decimal_chars(listed.len() as u64));
                extend_str(&mut out, " (1 is the most recent)");
                return Err(string_of(&out));
            }
            let k = (n - 1) as usize;
            assert(entry_views(listed@)[k as int] == listed@[k as int]@);
            Ok(listed[k].path.clone())
        },
        None => {
            let prefix = strip_jsonl(target);
            let mut found: Vec<SessionEntry> = Vec::new();
            assert(entry_views(found@) =~= Seq::<EntryView>::empty());
            collect_matching(listed, &prefix, &mut found);
            collect_matching(archived, &prefix, &mut found);
            proof {
                lemma_matching_concat(entry_views(listed@), entry_views(archived@), prefix@);
                assert(entry_views(listed@) + entry_views(archived@) =~= entry_views(listed@) + entry_views(archived@));
            }
            if found.len() == 1 {
                assert(entry_views(found@)[0] == found@[0]@);
                Ok(found[0].path.clone())
            } else if found.len() > 1 {
                let mut ids: Vec<Vec<char>> = Vec::new();
                let mut i: usize = 0;
                while i < found.len()
                    invariant
                        i <= found@.len(),
                        views(ids@) == entry_ids(entry_views(found@)).subrange(0, i as int),
                    decreases found@.len() - i,
                {
                    let ghost before = ids@;
                    ids.push(chars_of(found[i].id.as_str()));
                    assert(views(ids@) =~= views(before).push(found@[i as int].id@));
                    i = i + 1;
                    assert(entry_ids(entry_views(found@)).subrange(0, i as int) =~= entry_ids(
                        entry_views(found@),
                    ).subrange(0, i - 1).push(found@[i - 1].id@));
                }
                assert(entry_ids(entry_views(found@)).subrange(0, found@.len() as int) =~= entry_ids(
                    entry_views(found@),
                ));
                let joined = crate::text::join_chars(&ids, &chars_of(", "));
                let mut out: Vec<char> = Vec::new();
                extend_str(&mut out, "'");
                extend_str(&mut out, target);
                extend_str(&mut out, "' matches ");
                extend_chars(&mut out, &decimal_chars(found.len() as u64));
                extend_str(&mut out, " sessions: ");
                extend_chars(&mut out, &joined);
                extend_str(&mut out, ". Use a longer prefix.");
                Err(string_of(&out))
            } else if is_file {
                Ok(target.to_owned())
            } else {
                let mut out: Vec<char> = Vec::new();
                extend_str(&mut out, "no session matches '");
                extend_str(&mut out, target);
                extend_str(&mut out, "'. Run `flint --list-sessions` or `/sessions`.");
                Err(string_of(&out))
            }
        },
    }
}

proof fn lemma_matching_concat(a: Seq<EntryView>, b: Seq<EntryView>, prefix: Seq<char>)
    ensures
        matching(a + b, prefix) == matching(a, prefix) + matching(b, prefix),
    decreases b.len(),
{
    if b.len() == 0 {
        assert(a + b =~= a);
        assert(matching(a, prefix) + matching(b, prefix) =~= matching(a, prefix));
    } else {
        lemma_matching_concat(a, b.drop_last(), prefix);
        assert((a + b).drop_last() =~= a + b.drop_last());
        assert((a + b).last() == b.last());
        if starts_with(b.last().id, prefix) {
            assert(matching(a, prefix) + matching(b, prefix) =~= (matching(a, prefix) + matching(
                b.drop_last(),
                prefix,
            )).push(b.last()));
        } else {
            assert(matching(a, prefix) + matching(b, prefix) =~= matching(a, prefix) + matching(
                b.drop_last(),
                prefix,
            ));
        }
    }
}

/// A run that failed because the account has no money left exits with "unavailable",
/// whatever status carried the news: a person has to act, and retrying changes nothing.
pub proof fn law_an_empty_account_is_unavailable(status: u16, body: Seq<char>, unusable: bool)
    requires
        crate::provider::says_no_money(body),
    ensures
        exit_code_spec(Some(crate::provider::classify_spec(status, body)), unusable)
            == EXIT_UNAVAILABLE,
{
}

/// A failure worth another attempt always exits with "try again later", whatever it is
/// called.
pub proof fn law_retryable_means_tempfail(code: Seq<char>, unusable: bool)
    ensures
        exit_code_spec(Some((code, true)), unusable) == EXIT_TEMPFAIL,
{
}

// =======================================================================================
// A provider's balance, said to a person
// =======================================================================================

/// The money in a balance: the total and its currency, the total alone, or nothing.
pub open spec fn money_of(b: crate::provider::Balance) -> Seq<char> {
    match (b.total, b.currency) {
        (Some(total), Some(currency)) => total@ + " "@ + currency@,
        (Some(total), None) => total@,
        _ => Seq::empty(),
    }
}

/// How the total splits, when the provider says: ` (g granted, t topped up)`.
pub open spec fn parts_of(b: crate::provider::Balance) -> Seq<char> {
    match (b.granted, b.topped_up) {
        (Some(g), Some(t)) => " ("@ + g@ + " granted, "@ + t@ + " topped up)"@,
        _ => Seq::empty(),
    }
}

pub const USABLE_UNPRICED: &'static str =
    ": usable -- /models answered. This provider publishes no balance, so the account was not asked about";

pub const UNUSABLE_UNPRICED: &'static str =
    ": not usable -- the provider will not serve requests as things are (no balance, or credentials it rejects)";

pub const CANNOT_TELL: &'static str =
    ": cannot tell -- the endpoint answered neither its balance nor /models, so neither the key nor the account was checked. A provider that serves only /chat/completions is normal here";

/// One line about a provider's account: usable, not usable or cannot tell, with the money
/// left when the provider says how much.
pub open spec fn balance_line(name: Seq<char>, b: crate::provider::Balance) -> Seq<char> {
    let money = money_of(b);
    match b.usable {
        Some(true) => if money.len() == 0 {
            name + USABLE_UNPRICED@
        } else {
            name + ": usable -- "@ + money + " left"@ + parts_of(b)
        },
        Some(false) => if money.len() == 0 {
            name + UNUSABLE_UNPRICED@
        } else {
            name + ": not usable -- "@ + money + " left"@ + parts_of(b)
        },
        None => name + CANNOT_TELL@,
    }
}

/// One line about a provider's account, for a person.
pub fn human_balance(name: &str, balance: &crate::provider::Balance) -> (s: String)
    ensures
        s@ == balance_line(name@, *balance),
{
    let mut money: Vec<char> = Vec::new();
    match (&balance.total, &balance.currency) {
        (Some(total), Some(currency)) => {
            extend_str(&mut money, total.as_str());
            extend_str(&mut money, " ");
            extend_str(&mut money, currency.as_str());
        },
        (Some(total), None) => {
            extend_str(&mut money, total.as_str());
        },
        _ => {},
    }
    assert(money@ =~= money_of(*balance));
    let mut parts: Vec<char> = Vec::new();
    match (&balance.granted, &balance.topped_up) {
        (Some(g), Some(t)) => {
            extend_str(&mut parts, " (");
            extend_str(&mut parts, g.as_str());
            extend_str(&mut parts, " granted, ");
            extend_str(&mut parts, t.as_str());
            extend_str(&mut parts, " topped up)");
        },
        _ => {},
    }
    assert(parts@ =~= parts_of(*balance));
    let mut out = chars_of(name);
    match balance.usable {
        Some(true) => if money.len() == 0 {
            extend_str(&mut out, USABLE_UNPRICED);
        } else {
            extend_str(&mut out, ": usable -- ");
            extend_chars(&mut out, &money);
            extend_str(&mut out, " left");
            extend_chars(&mut out, &parts);
        },
        Some(false) => if money.len() == 0 {
            extend_str(&mut out, UNUSABLE_UNPRICED);
        } else {
            extend_str(&mut out, ": not usable -- ");
            extend_chars(&mut out, &money);
            extend_str(&mut out, " left");
            extend_chars(&mut out, &parts);
        },
        None => {
            extend_str(&mut out, CANNOT_TELL);
        },
    }
    string_of(&out)
}

// =======================================================================================
// The reasoning level a run asks for
// =======================================================================================

/// The level asked for: the flag's word, trimmed, else the conversation's own, else the
/// configuration's; refused when it is not a level this build knows.
pub open spec fn thinking_spec(
    flag: Option<Seq<char>>,
    session: Option<Seq<char>>,
    config: Seq<char>,
) -> Result<Seq<char>, Seq<char>> {
    let level = match flag {
        Some(w) => crate::text::trim(w),
        None => match session {
            Some(l) => l,
            None => config,
        },
    };
    if crate::provider::levels().contains(level) {
        Ok(level)
    } else {
        Err("unknown thinking level '"@ + level + "': use one of off, low, medium, high"@)
    }
}

/// The reasoning level a run asks for, from the flag, the conversation and the configuration
/// in that order of authority. An unknown word is refused, not passed on.
pub fn resolve_thinking(flag: Option<&str>, session: Option<&str>, config: &str) -> (r: Result<
    String,
    String,
>)
    ensures
        match r {
            Ok(l) => thinking_spec(
                match flag {
                    Some(w) => Some(w@),
                    None => None,
                },
                match session {
                    Some(w) => Some(w@),
                    None => None,
                },
                config@,
            ) == Ok::<Seq<char>, Seq<char>>(l@),
            Err(e) => thinking_spec(
                match flag {
                    Some(w) => Some(w@),
                    None => None,
                },
                match session {
                    Some(w) => Some(w@),
                    None => None,
                },
                config@,
            ) == Err::<Seq<char>, Seq<char>>(e@),
        },
{
    let level: String = match flag {
        Some(w) => crate::text::trim_str(w),
        None => match session {
            Some(l) => string_of(&chars_of(l)),
            None => string_of(&chars_of(config)),
        },
    };
    if crate::provider::Thinking::is_a_level(level.as_str()) {
        Ok(level)
    } else {
        let mut m = chars_of("unknown thinking level '");
        extend_str(&mut m, level.as_str());
        extend_str(&mut m, "': use one of off, low, medium, high");
        Err(string_of(&m))
    }
}

// =======================================================================================
// Refusing to send without a key
// =======================================================================================

/// Why a message cannot be sent to the provider, if it cannot: it has no key (the resolved key
/// is blank) and is not a local endpoint. The message names the variable to set (or a
/// placeholder) and the configuration file to edit.
pub open spec fn unusable_spec(p: crate::search::ProviderConfig, config_path: Seq<char>) -> Option<
    Seq<char>,
> {
    if crate::text::trim(p.resolved_key_spec()).len() == 0 && !crate::provider::is_local_spec(
        p.base_url@,
    ) {
        let hint = match p.api_key_env {
            Some(v) => v@,
            None => "YOUR_API_KEY_ENV"@,
        };
        Some(
            "provider '"@ + p.name@ + NO_KEY_HELP@ + hint + ", or edit "@ + config_path + "."@,
        )
    } else {
        None
    }
}

pub const NO_KEY_HELP: &'static str =
    "' has no API key.\nFix it without leaving flint:\n  /provider key <your-key>     save a key for this provider\n  /provider add                configure a different provider\nOr set the environment variable ";

/// Refuse to send a message when the provider has no key. Checked when a message is sent,
/// not at start-up: the command that sets a key lives inside the program.
pub fn ensure_usable(p: &crate::search::ProviderConfig, config_path: &str) -> (r: Result<(), String>)
    ensures
        match r {
            Ok(()) => unusable_spec(*p, config_path@) is None,
            Err(e) => unusable_spec(*p, config_path@) == Some(e@),
        },
{
    let key = p.resolved_key();
    if crate::text::is_blank(key.as_str()) && !crate::provider::is_local_endpoint(
        p.base_url.as_str(),
    ) {
        let mut m = chars_of("provider '");
        extend_str(&mut m, p.name.as_str());
        extend_str(&mut m, NO_KEY_HELP);
        match &p.api_key_env {
            Some(v) => extend_str(&mut m, v.as_str()),
            None => extend_str(&mut m, "YOUR_API_KEY_ENV"),
        }
        extend_str(&mut m, ", or edit ");
        extend_str(&mut m, config_path);
        extend_str(&mut m, ".");
        return Err(string_of(&m));
    }
    Ok(())
}

// =======================================================================================
// A failure, as a frame and as an exit code
// =======================================================================================

/// The frame for a failure: classified, with its code and whether to retry, when its cause is
/// known; a plain error frame otherwise.
pub fn error_frame(message: &str, failure: Option<&ProviderFailure>) -> (s: String)
    ensures
        crate::ndjson::line_of(
            s@,
            match failure {
                Some(f) => crate::ndjson::error_coded_line(message@, f.code@, f.retryable),
                None => crate::ndjson::message_line("error"@, message@),
            },
        ),
        crate::text::no_break(s@),
{
    match failure {
        Some(f) => crate::ndjson::error_coded(message, f.code, f.retryable),
        None => crate::ndjson::error(message),
    }
}

/// The exit code for a failure before anything was checked: a command-line fault is a usage
/// error; otherwise the cause decides, as at the end of a turn.
pub fn failure_code(is_usage: bool, failure: Option<&ProviderFailure>) -> (code: i32)
    ensures
        is_usage ==> code == EXIT_USAGE,
        !is_usage ==> code == exit_code_spec(
            match failure {
                Some(f) => Some((f.code@, f.retryable)),
                None => None,
            },
            false,
        ),
{
    if is_usage {
        EXIT_USAGE
    } else {
        exit_code_for(failure, false)
    }
}

// =======================================================================================
// Showing a page in the browser
// =======================================================================================

/// The family of system a program runs on, as far as opening a URL is concerned.
#[derive(Debug, Clone, Copy, PartialEq, Eq)]
pub enum Os {
    Windows,
    MacOs,
    Other,
}

/// A program to run: its name, its arguments, and a command line handed over verbatim (for
/// `cmd`, which reads a command line rather than arguments).
#[derive(Debug)]
pub struct Invocation {
    pub program: String,
    pub args: Vec<String>,
    pub raw: Option<String>,
}

/// The command that shows a URL. On Windows it is `cmd /S /C` with the whole line quoted and
/// the URL inside quotes of its own, after the empty quotes that `start` reads as a window
/// title: a URL outside quotes is a command line, cut at `&`. Elsewhere the URL is the one
/// argument of `open` or `xdg-open`.
pub fn browser_invocation(os: Os, url: &str) -> (run: Invocation)
    ensures
        match os {
            Os::Windows => {
                &&& run.program@ == "cmd"@
                &&& run.args@.len() == 2
                &&& run.args@[0]@ == "/S"@
                &&& run.args@[1]@ == "/C"@
                &&& run.raw matches Some(r) && r@ == "\"start \"\" \""@ + url@ + "\"\""@
            },
            Os::MacOs => run.program@ == "open"@ && run.args@.len() == 1 && run.args@[0]@ == url@
                && run.raw is None,
            Os::Other => run.program@ == "xdg-open"@ && run.args@.len() == 1 && run.args@[0]@
                == url@ && run.raw is None,
        },
{
    match os {
        Os::Windows => {
            let mut args: Vec<String> = Vec::new();
            args.push(String::from_str("/S"));
            args.push(String::from_str("/C"));
            let mut line = chars_of("\"start \"\" \"");
            extend_str(&mut line, url);
            extend_str(&mut line, "\"\"");
            Invocation { program: String::from_str("cmd"), args, raw: Some(string_of(&line)) }
        },
        Os::MacOs => {
            let mut args: Vec<String> = Vec::new();
            args.push(string_of(&chars_of(url)));
            Invocation { program: String::from_str("open"), args, raw: None }
        },
        Os::Other => {
            let mut args: Vec<String> = Vec::new();
            args.push(string_of(&chars_of(url)));
            Invocation { program: String::from_str("xdg-open"), args, raw: None }
        },
    }
}

// =======================================================================================
// What a heartbeat says the run is doing
// =======================================================================================

/// What the run is doing, for a heartbeat to repeat while nothing else is said: the phrase,
/// whether this wait has not been announced yet, and whether the turn is still running.
#[derive(Debug)]
pub struct Progress {
    pub doing: String,
    pub fresh: bool,
    pub running: bool,
}

/// The step an event describes, if it describes one: writing the answer, running a tool,
/// thinking after a tool's result, or what the agent's own status says.
pub open spec fn doing_for(e: crate::event::EventView) -> Option<Seq<char>> {
    match e {
        crate::event::EventView::Text(_) => Some("writing the answer"@),
        crate::event::EventView::Reasoning(_) => Some("writing the answer"@),
        crate::event::EventView::ToolStart { name, .. } => Some("running "@ + name),
        crate::event::EventView::ToolResult { .. } => Some("thinking"@),
        crate::event::EventView::Status { text, .. } => Some(text),
        _ => None,
    }
}

/// What seeing an event does to the progress: a new step replaces the phrase and is a wait
/// not yet announced; the same step, or an event that describes none, changes nothing.
pub open spec fn saw_spec(before: Progress, e: crate::event::EventView, after: Progress) -> bool {
    match doing_for(e) {
        Some(d) => if d != before.doing@ {
            after.doing@ == d && after.fresh && after.running == before.running
        } else {
            after == before
        },
        None => after == before,
    }
}

/// A step seen again is the same wait: the second sight changes nothing, so a wait already
/// announced is not announced as new.
pub proof fn law_the_same_step_twice_is_one_wait(
    p0: Progress,
    e: crate::event::EventView,
    p1: Progress,
    p2: Progress,
)
    requires
        saw_spec(p0, e, p1),
        saw_spec(p1, e, p2),
    ensures
        p2 == p1,
{
}

impl Progress {
    /// A turn that has just begun: thinking, not yet announced, running.
    pub fn new() -> (p: Progress)
        ensures
            p.doing@ == "thinking"@,
            p.fresh,
            p.running,
    {
        Progress { doing: String::from_str("thinking"), fresh: true, running: true }
    }

    /// Name the step an event describes. A new step is a new wait, not yet announced; the same
    /// step, or an event that describes none, changes nothing.
    pub fn saw(&mut self, event: &crate::event::Event)
        ensures
            saw_spec(*old(self), event@, *final(self)),
    {
        let doing: Vec<char> = match event {
            crate::event::Event::Text(_) => chars_of("writing the answer"),
            crate::event::Event::Reasoning(_) => chars_of("writing the answer"),
            crate::event::Event::ToolStart { name, .. } => {
                let mut d = chars_of("running ");
                extend_str(&mut d, name.as_str());
                d
            },
            crate::event::Event::ToolResult { .. } => chars_of("thinking"),
            crate::event::Event::Status { text, .. } => chars_of(text.as_str()),
            _ => {
                return;
            },
        };
        let now = chars_of(self.doing.as_str());
        if !crate::text::chars_eq(&doing, &now) {
            self.doing = string_of(&doing);
            self.fresh = true;
        }
    }
}

/// The exit code of an account check: usable is success, not usable needs a person, and no
/// verdict is a plain failure.
pub fn balance_code(usable: Option<bool>) -> (code: i32)
    ensures
        code == match usable {
            Some(true) => EXIT_OK,
            Some(false) => EXIT_UNAVAILABLE,
            None => EXIT_FAILURE,
        },
{
    match usable {
        Some(true) => EXIT_OK,
        Some(false) => EXIT_UNAVAILABLE,
        None => EXIT_FAILURE,
    }
}

// =======================================================================================
// Exporting a conversation
// =======================================================================================

/// Whether a line of a session file, as read, is a record of this type.
pub open spec fn kind_is(p: Option<crate::json::Json>, k: Seq<char>) -> bool {
    p matches Some(j) && crate::json::str_field(j, "type"@) == Some(k)
}

/// How many of the records are messages of the conversation (`chat` lines).
pub open spec fn chat_count(ps: Seq<Option<crate::json::Json>>) -> nat
    decreases ps.len(),
{
    if ps.len() == 0 {
        0
    } else {
        chat_count(ps.drop_last()) + if kind_is(ps.last(), "chat"@) {
            1nat
        } else {
            0nat
        }
    }
}

/// The name in the last `title` record that has one.
pub open spec fn last_title(ps: Seq<Option<crate::json::Json>>) -> Option<Seq<char>>
    decreases ps.len(),
{
    if ps.len() == 0 {
        None
    } else if kind_is(ps.last(), "title"@) && crate::json::str_field(ps.last().unwrap(), "name"@)
        is Some {
        crate::json::str_field(ps.last().unwrap(), "name"@)
    } else {
        last_title(ps.drop_last())
    }
}

/// What an export comes to: refused when the file holds no message, else the page's title,
/// which is the last title given to the conversation, or its id (the file's stem), or its path.
pub open spec fn export_spec(
    path: Seq<char>,
    stem: Option<Seq<char>>,
    ps: Seq<Option<crate::json::Json>>,
) -> Result<Seq<char>, Seq<char>> {
    if chat_count(ps) == 0 {
        Err(path + " has no conversation in it: there is nothing to export"@)
    } else {
        Ok(
            match last_title(ps) {
                Some(t) => t,
                None => match stem {
                    Some(s) => s,
                    None => path,
                },
            },
        )
    }
}

/// The records read from each line, `None` for a line that is not JSON.
pub open spec fn records_of(lines: Seq<String>) -> Seq<Option<crate::json::Json>> {
    Seq::new(
        lines.len(),
        |i: int|
            match crate::json::json_read(lines[i]@) {
                Ok(j) => Some(j),
                Err(_) => None,
            },
    )
}

/// The title of an export, given the record each line of the session file holds, or why
/// there is nothing to export.
pub fn export_title(path: &str, stem: Option<&str>, records: &Vec<Option<crate::json::Json>>) -> (r:
    Result<String, String>)
    ensures
        match r {
            Ok(t) => export_spec(
                path@,
                match stem {
                    Some(s) => Some(s@),
                    None => None,
                },
                records@,
            ) == Ok::<Seq<char>, Seq<char>>(t@),
            Err(e) => export_spec(
                path@,
                match stem {
                    Some(s) => Some(s@),
                    None => None,
                },
                records@,
            ) == Err::<Seq<char>, Seq<char>>(e@),
        },
{
    let mut chats: usize = 0;
    let mut title: Option<String> = None;
    let mut i: usize = 0;
    while i < records.len()
        invariant
            i <= records@.len(),
            chats <= i,
            (chats == 0) == (chat_count(records@.take(i as int)) == 0),
            ov(title) == last_title(records@.take(i as int)),
        decreases records@.len() - i,
    {
        proof {
            assert(records@.take(i + 1).drop_last() =~= records@.take(i as int));
            assert(records@.take(i + 1).last() == records@[i as int]);
            reveal_strlit("chat");
            reveal_strlit("title");
            assert("chat"@.len() == 4 && "title"@.len() == 5);
        }
        match &records[i] {
            Some(j) => {
                match j.str_at("type") {
                    Some(k) => {
                        let kc = chars_of(k.as_str());
                        if crate::text::eq_str(&kc, "chat") {
                            chats = chats + 1;
                        } else if crate::text::eq_str(&kc, "title") {
                            match j.str_at("name") {
                                Some(n) => {
                                    title = Some(string_of(&chars_of(n.as_str())));
                                },
                                None => {},
                            }
                        }
                    },
                    None => {},
                }
            },
            None => {},
        }
        i = i + 1;
    }
    assert(records@.take(records@.len() as int) =~= records@);
    if chats == 0 {
        let mut m = chars_of(path);
        extend_str(&mut m, " has no conversation in it: there is nothing to export");
        return Err(string_of(&m));
    }
    match title {
        Some(t) => Ok(t),
        None => match stem {
            Some(s) => Ok(string_of(&chars_of(s))),
            None => Ok(string_of(&chars_of(path))),
        },
    }
}

/// The title of an export of these session-file lines, each read as JSON, or why there is
/// nothing to export.
pub fn export_plan(path: &str, stem: Option<&str>, lines: &Vec<String>) -> (r: Result<
    String,
    String,
>)
    ensures
        match r {
            Ok(t) => export_spec(
                path@,
                match stem {
                    Some(s) => Some(s@),
                    None => None,
                },
                records_of(lines@),
            ) == Ok::<Seq<char>, Seq<char>>(t@),
            Err(e) => export_spec(
                path@,
                match stem {
                    Some(s) => Some(s@),
                    None => None,
                },
                records_of(lines@),
            ) == Err::<Seq<char>, Seq<char>>(e@),
        },
{
    let mut records: Vec<Option<crate::json::Json>> = Vec::new();
    let mut i: usize = 0;
    while i < lines.len()
        invariant
            i <= lines@.len(),
            records@ =~= records_of(lines@).take(i as int),
        decreases lines@.len() - i,
    {
        let r = match crate::json::Json::parse(lines[i].as_str()) {
            Ok(j) => Some(j),
            Err(_) => None,
        };
        records.push(r);
        i = i + 1;
    }
    assert(records_of(lines@).take(lines@.len() as int) =~= records_of(lines@));
    export_title(path, stem, &records)
}

} // verus!

//! The settings `/config set` changes, and the rule for each.
//!
//! The edit is kept pure: the caller writes the file and rebuilds the run around it, so a
//! refusal can be checked without a configuration file, a home directory or a terminal.
use vstd::prelude::*;

use crate::args::{parse_u64, parse_u64_spec};
use crate::text::{
    chars_of, debug_quoted, debug_text, decimal, decimal_chars, extend_chars, extend_str,
    join_chars, join_with, string_of, trim, trim_str, views, words, words_of,
};

verus! {

/// The settings of the configuration that `/config set` can change.
#[derive(Debug)]
pub struct Settings {
    /// The program commands are run with.
    pub shell: String,
    /// The arguments that make it run a command string.
    pub shell_args: Vec<String>,
    /// The runaway guard: whole model calls per turn.
    pub max_steps: usize,
    /// Exported to commands as `HTTP(S)_PROXY`.
    pub proxy: Option<String>,
}

/// The settings `/config set` takes, as its refusal lists them.
pub const CONFIG_KEYS: &'static str = "shell, shell_args, max_steps, proxy";

pub const SHELL_EMPTY: &'static str =
    "shell cannot be empty — it is the program commands are run with";

pub const STEPS_ZERO: &'static str =
    "max_steps cannot be 0 — it is the guard against a loop that never ends";

/// The texts of a list of strings.
pub open spec fn string_views(v: Seq<String>) -> Seq<Seq<char>> {
    v.map_values(|s: String| s@)
}

/// A list of strings as `{:?}` writes it: `["-S", "/C"]`.
pub open spec fn debug_list(items: Seq<Seq<char>>) -> Seq<char> {
    "["@ + join_with(items.map_values(|t: Seq<char>| debug_text(t)), ", "@) + "]"@
}

/// What `/config set key value` does: the new settings and the sentence that says so, or the
/// sentence that says why not (and the settings unchanged).
pub open spec fn set_spec(old: Settings, new: Settings, key: Seq<char>, value: Seq<char>, r: Result<
    String,
    String,
>) -> bool {
    if key == "shell"@ {
        if trim(value).len() == 0 {
            r matches Err(e) && e@ == SHELL_EMPTY@ && new == old
        } else {
            r matches Ok(m) && m@ == "shell = "@ + trim(value) && new.shell@ == trim(value)
                && new.shell_args == old.shell_args && new.max_steps == old.max_steps && new.proxy
                == old.proxy
        }
    } else if key == "shell_args"@ {
        r matches Ok(m) && string_views(new.shell_args@) == words_of(value) && m@ == "shell_args = "@
            + debug_list(words_of(value)) && new.shell == old.shell && new.max_steps
            == old.max_steps && new.proxy == old.proxy
    } else if key == "max_steps"@ {
        match parse_u64_spec(trim(value)) {
            Some(n) => if n > usize::MAX {
                r matches Err(e) && e@ == "max_steps takes a whole number, not "@ + debug_text(
                    value,
                ) && new == old
            } else if n == 0 {
                r matches Err(e) && e@ == STEPS_ZERO@ && new == old
            } else {
                r matches Ok(m) && m@ == "max_steps = "@ + decimal(n as nat) && new.max_steps == n
                    && new.shell == old.shell && new.shell_args == old.shell_args && new.proxy
                    == old.proxy
            },
            None => r matches Err(e) && e@ == "max_steps takes a whole number, not "@ + debug_text(
                value,
            ) && new == old,
        }
    } else if key == "proxy"@ {
        let t = trim(value);
        r matches Ok(m) && new.shell == old.shell && new.shell_args == old.shell_args
            && new.max_steps == old.max_steps && if t.len() == 0 {
            new.proxy is None && m@ == "proxy = (none)"@
        } else {
            new.proxy matches Some(p) && p@ == t && m@ == "proxy = "@ + t
        }
    } else {
        r matches Err(e) && e@ == "no setting called "@ + debug_text(key) + " — /config set takes "@
            + CONFIG_KEYS@ && new == old
    }
}

/// Change one setting, or say why not: an empty shell and a `max_steps` of zero or of no
/// number are refused, `shell_args` is split on whitespace, a blank proxy clears it, and a key
/// that is not a setting is named with the list of those that are.
pub fn set_config_key(cfg: &mut Settings, key: &str, value: &str) -> (r: Result<String, String>)
    ensures
        set_spec(*old(cfg), *final(cfg), key@, value@, r),
{
    let k = chars_of(key);
    if crate::text::eq_str(&k, "shell") {
        let t = trim_str(value);
        if crate::text::is_blank(value) {
            return Err(String::from_str(SHELL_EMPTY));
        }
        let mut m = chars_of("shell = ");
        extend_str(&mut m, t.as_str());
        cfg.shell = t;
        Ok(string_of(&m))
    } else if crate::text::eq_str(&k, "shell_args") {
        let ws = words(&chars_of(value));
        let mut args: Vec<String> = Vec::new();
        let mut quoted: Vec<Vec<char>> = Vec::new();
        let mut i: usize = 0;
        while i < ws.len()
            invariant
                i <= ws@.len(),
                args@.len() == i,
                quoted@.len() == i,
                forall|j: int| 0 <= j < i ==> (#[trigger] args@[j])@ == ws@[j]@,
                forall|j: int| 0 <= j < i ==> (#[trigger] quoted@[j])@ == debug_text(ws@[j]@),
            decreases ws@.len() - i,
        {
            let a = string_of(&ws[i]);
            let q = debug_quoted(a.as_str());
            quoted.push(chars_of(q.as_str()));
            args.push(a);
            i = i + 1;
        }
        assert(string_views(args@) =~= views(ws@));
        assert(views(quoted@) =~= words_of(value@).map_values(|t: Seq<char>| debug_text(t)));
        let sep = chars_of(", ");
        let mut m = chars_of("shell_args = ");
        let ghost head = m@;
        extend_str(&mut m, "[");
        extend_chars(&mut m, &join_chars(&quoted, &sep));
        extend_str(&mut m, "]");
        assert(m@ =~= head + debug_list(words_of(value@)));
        cfg.shell_args = args;
        Ok(string_of(&m))
    } else if crate::text::eq_str(&k, "max_steps") {
        let t = trim_str(value);
        match parse_u64(t.as_str()) {
            Some(n) => {
                if n > usize::MAX as u64 {
                    let mut m = chars_of("max_steps takes a whole number, not ");
                    extend_str(&mut m, debug_quoted(value).as_str());
                    return Err(string_of(&m));
                }
                if n == 0 {
                    return Err(String::from_str(STEPS_ZERO));
                }
                let mut m = chars_of("max_steps = ");
                extend_chars(&mut m, &decimal_chars(n));
                cfg.max_steps = n as usize;
                Ok(string_of(&m))
            },
            None => {
                let mut m = chars_of("max_steps takes a whole number, not ");
                extend_str(&mut m, debug_quoted(value).as_str());
                Err(string_of(&m))
            },
        }
    } else if crate::text::eq_str(&k, "proxy") {
        let t = trim_str(value);
        if crate::text::is_blank(value) {
            cfg.proxy = None;
            Ok(String::from_str("proxy = (none)"))
        } else {
            let mut m = chars_of("proxy = ");
            extend_str(&mut m, t.as_str());
            cfg.proxy = Some(t);
            Ok(string_of(&m))
        }
    } else {
        let mut m = chars_of("no setting called ");
        extend_str(&mut m, debug_quoted(key).as_str());
        extend_str(&mut m, " — /config set takes ");
        extend_str(&mut m, CONFIG_KEYS);
        Err(string_of(&m))
    }
}

// =======================================================================================
// Removing a provider
// =======================================================================================

/// The names of the providers, less every one named `name`, in their order.
pub open spec fn without(names: Seq<Seq<char>>, name: Seq<char>) -> Seq<Seq<char>>
    decreases names.len(),
{
    if names.len() == 0 {
        Seq::empty()
    } else {
        let rest = without(names.drop_last(), name);
        if names.last() == name {
            rest
        } else {
            rest.push(names.last())
        }
    }
}

/// The refusal of `/provider rm <name>`, if it is refused: a name is needed, the last
/// provider is never deleted, and the name must be one of them.
pub open spec fn removal_refusal(names: Seq<Seq<char>>, name: Seq<char>) -> Option<Seq<char>> {
    if name.len() == 0 {
        Some("usage: /provider rm <name>"@)
    } else if names.len() <= 1 {
        Some(LAST_PROVIDER@)
    } else if !names.contains(name) {
        Some("unknown provider '"@ + name + "'"@)
    } else {
        None
    }
}

/// The provider that takes over from a removed one: the first that is left, or none.
pub open spec fn fallback_of(left: Seq<Seq<char>>) -> Seq<char> {
    if left.len() > 0 {
        left[0]
    } else {
        Seq::empty()
    }
}

/// Why the last provider is not deleted.
pub const LAST_PROVIDER: &'static str =
    "refusing to delete the last provider \u{2014} there would be nothing left to talk to";

/// What removing a provider leaves: the providers left, the default, and the provider to
/// switch to when the one in use was removed.
#[derive(Debug)]
pub struct Removal {
    pub remaining: Vec<String>,
    pub default_provider: String,
    pub switch_to: Option<String>,
}

/// `/provider rm <name>`: refused without a name, for the last provider, or for a name no
/// provider has; otherwise every provider so named goes, the default moves to the first one
/// left when it was the one removed, and so does the run when it was using it.
pub fn remove_provider(names: &Vec<String>, default_provider: &str, active: &str, name: &str) -> (r:
    Result<Removal, String>)
    ensures
        match r {
            Err(e) => removal_refusal(crate::patch::string_views(names@), name@) == Some(e@),
            Ok(rm) => {
                let left = without(crate::patch::string_views(names@), name@);
                &&& removal_refusal(crate::patch::string_views(names@), name@) is None
                &&& crate::patch::string_views(rm.remaining@) == left
                &&& rm.default_provider@ == (if default_provider@ == name@ {
                    fallback_of(left)
                } else {
                    default_provider@
                })
                &&& crate::text::ov(rm.switch_to) == (if active@ == name@ {
                    Some(fallback_of(left))
                } else {
                    None
                })
            },
        },
{
    let ghost ns = crate::patch::string_views(names@);
    let target = chars_of(name);
    if target.len() == 0 {
        return Err(String::from_str("usage: /provider rm <name>"));
    }
    if names.len() <= 1 {
        return Err(String::from_str(LAST_PROVIDER));
    }
    let mut remaining: Vec<String> = Vec::new();
    let mut found = false;
    let mut i: usize = 0;
    while i < names.len()
        invariant
            i <= names@.len(),
            ns == crate::patch::string_views(names@),
            target@ == name@,
            crate::patch::string_views(remaining@) == without(ns.take(i as int), name@),
            found == ns.take(i as int).contains(name@),
        decreases names@.len() - i,
    {
        assert(ns.take(i + 1).drop_last() =~= ns.take(i as int));
        assert(ns.take(i + 1).last() == names@[i as int]@);
        let here = chars_of(names[i].as_str());
        let ghost before = crate::patch::string_views(remaining@);
        let ghost t0 = ns.take(i as int);
        let ghost t1 = ns.take(i + 1);
        proof {
            if t0.contains(name@) {
                let w = choose|w: int| 0 <= w < t0.len() && #[trigger] t0[w] == name@;
                assert(t1[w] == name@);
            }
        }
        if crate::text::chars_eq(&here, &target) {
            found = true;
            assert(ns.take(i + 1)[i as int] == name@);
        } else {
            remaining.push(names[i].clone());
            assert(crate::patch::string_views(remaining@) =~= before.push(names@[i as int]@));
            proof {
                if t1.contains(name@) {
                    let w = choose|w: int| 0 <= w < t1.len() && #[trigger] t1[w] == name@;
                    assert(t0[w] == name@);
                }
            }
        }
        i = i + 1;
    }
    assert(ns.take(names@.len() as int) =~= ns);
    if !found {
        let mut out = chars_of("unknown provider '");
        extend_str(&mut out, name);
        extend_str(&mut out, "'");
        return Err(string_of(&out));
    }
    let fallback = if remaining.len() > 0 {
        remaining[0].clone()
    } else {
        String::new()
    };
    proof {
        let left = without(ns, name@);
        if left.len() > 0 {
            assert(crate::patch::string_views(remaining@)[0] == remaining@[0]@);
        }
    }
    let default_now = if crate::text::chars_eq(&chars_of(default_provider), &target) {
        fallback.clone()
    } else {
        default_provider.to_owned()
    };
    let switch_to = if crate::text::chars_eq(&chars_of(active), &target) {
        Some(fallback)
    } else {
        None
    };
    Ok(Removal { remaining, default_provider: default_now, switch_to })
}

proof fn lemma_without_distinct(names: Seq<Seq<char>>, name: Seq<char>)
    requires
        forall|i: int, j: int| 0 <= i < j < names.len() ==> names[i] != names[j],
    ensures
        without(names, name).len() == if names.contains(name) {
            names.len() - 1
        } else {
            names.len() as int
        },
        forall|k: int| 0 <= k < without(names, name).len() ==> names.contains(
            #[trigger] without(names, name)[k],
        ) && without(names, name)[k] != name,
    decreases names.len(),
{
    if names.len() > 0 {
        let d = names.drop_last();
        lemma_without_distinct(d, name);
        if d.contains(name) {
            let w = choose|w: int| 0 <= w < d.len() && d[w] == name;
            assert(names[w] == name);
            assert(names.contains(name));
        }
        if names.contains(name) && !d.contains(name) {
            let w = choose|w: int| 0 <= w < names.len() && names[w] == name;
            if w < d.len() {
                assert(d[w] == name);
            }
            assert(w == names.len() - 1);
        }
        if d.contains(name) && names.last() == name {
            let w = choose|w: int| 0 <= w < d.len() && d[w] == name;
            assert(names[w] == names[names.len() - 1]);
        }
        if !names.contains(name) {
            if d.contains(name) {
                let w = choose|w: int| 0 <= w < d.len() && d[w] == name;
                assert(names[w] == name);
            }
            assert(names.last() != name);
        }
        assert forall|k: int| 0 <= k < without(names, name).len() implies names.contains(
            #[trigger] without(names, name)[k],
        ) && without(names, name)[k] != name by {
            if k < without(d, name).len() {
                let x = without(d, name)[k];
                assert(without(names, name)[k] == x);
                let w = choose|w: int| 0 <= w < d.len() && d[w] == x;
                assert(names[w] == x);
            } else {
                assert(without(names, name)[k] == names.last());
                assert(names[names.len() - 1] == names.last());
            }
        }
    }
}

/// The last provider is never removed: when the providers' names are distinct and a removal
/// is accepted, exactly the one named goes, at least one is left, and the default and the
/// provider switched to are among those left.
pub proof fn law_the_last_provider_stays(
    names: Seq<Seq<char>>,
    default_provider: Seq<char>,
    name: Seq<char>,
)
    requires
        forall|i: int, j: int| 0 <= i < j < names.len() ==> names[i] != names[j],
        removal_refusal(names, name) is None,
    ensures
        without(names, name).len() == names.len() - 1,
        without(names, name).len() >= 1,
        !without(names, name).contains(name),
        without(names, name).contains(fallback_of(without(names, name))),
        default_provider != name && names.contains(default_provider) ==> without(
            names,
            name,
        ).contains(default_provider),
{
    lemma_without_distinct(names, name);
    let left = without(names, name);
    assert(left[0] == fallback_of(left));
    if left.contains(name) {
        let w = choose|w: int| 0 <= w < left.len() && left[w] == name;
        assert(left[w] != name);
    }
    if default_provider != name && names.contains(default_provider) {
        lemma_without_keeps(names, name, default_provider);
    }
}

/// A name other than the one removed stays.
proof fn lemma_without_keeps(names: Seq<Seq<char>>, name: Seq<char>, other: Seq<char>)
    requires
        other != name,
        names.contains(other),
    ensures
        without(names, name).contains(other),
    decreases names.len(),
{
    let d = names.drop_last();
    if names.last() == other {
        assert(without(names, name).last() == other);
        assert(without(names, name)[without(names, name).len() - 1] == other);
    } else {
        let w = choose|w: int| 0 <= w < names.len() && names[w] == other;
        assert(w < d.len());
        assert(d[w] == other);
        lemma_without_keeps(d, name, other);
        let x = choose|x: int| 0 <= x < without(d, name).len() && without(d, name)[x] == other;
        if names.last() == name {
        } else {
            assert(without(names, name)[x] == other);
        }
    }
}

} // verus!

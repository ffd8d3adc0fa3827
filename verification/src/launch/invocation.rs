//! The command line one catalog entry becomes.
//!
//! Pure conversion: an entry, a models root and a port in, arguments out.
//! Nothing here spawns, reads a file, or touches the network.
//!
//! | Catalog field | Argument |
//! | --- | --- |
//! | `path` | `--model` |
//! | `draft_path` | `--model-draft` |
//! | `projector_path` | `--mmproj` |
//! | `context_size` | `--ctx-size` |
//! | identifier | `--alias` |
//! | `reasoning_format` | `--reasoning-format` |
//! | `reasoning_effort` | `--reasoning-effort` |
//!
//! The flags follow, in name order, by three cases and one lookup: `true`
//! yields the bare flag, `false` yields `--no-` and the key as written,
//! anything else yields the flag and the value as two arguments. Five keys
//! are short forms with different long spellings.

use vstd::prelude::*;

use crate::catalog::flags::pairs_view;
use crate::catalog::path::joined;
use crate::catalog::Entry;
use crate::text::{chars_of, decimal, decimal_string, same};

verus! {

/// Every child binds loopback. A remote bind is refused without a separate
/// security design.
pub const HOST: &'static str = "127.0.0.1";

/// The long spelling of a flag: the five short forms spelled out, and every
/// other key as it is.
pub open spec fn long_form(key: Seq<char>) -> Seq<char> {
    if key == "c"@ {
        "ctx-size"@
    } else if key == "ctk"@ {
        "cache-type-k"@
    } else if key == "ctv"@ {
        "cache-type-v"@
    } else if key == "fa"@ {
        "flash-attn"@
    } else if key == "np"@ {
        "parallel"@
    } else {
        key
    }
}

/// The arguments one flag becomes.
pub open spec fn flag_arguments(key: Seq<char>, value: Seq<char>) -> Seq<Seq<char>> {
    if value == "true"@ {
        seq!["--"@ + long_form(key)]
    } else if value == "false"@ {
        seq!["--no-"@ + key]
    } else {
        seq!["--"@ + long_form(key), value]
    }
}

/// The arguments a list of flags becomes, in order.
pub open spec fn flags_arguments(pairs: Seq<(Seq<char>, Seq<char>)>) -> Seq<Seq<char>>
    decreases pairs.len(),
{
    if pairs.len() == 0 {
        Seq::empty()
    } else {
        flags_arguments(pairs.drop_last()) + flag_arguments(pairs.last().0, pairs.last().1)
    }
}

/// A flag and its value, when there is a value.
pub open spec fn optional(flag: Seq<char>, value: Option<Seq<char>>) -> Seq<Seq<char>> {
    match value {
        Some(v) => seq![flag, v],
        None => Seq::empty(),
    }
}

/// The command line for one entry, without the binary that runs it.
pub open spec fn command_line(entry: Entry, root: Seq<char>, port: u16) -> Seq<Seq<char>> {
    seq!["--model"@, joined(root, entry.path@)] + optional(
        "--model-draft"@,
        match entry.draft_path {
            Some(p) => Some(joined(root, p@)),
            None => None,
        },
    ) + optional(
        "--mmproj"@,
        match entry.projector_path {
            Some(p) => Some(joined(root, p@)),
            None => None,
        },
    ) + seq![
        "--ctx-size"@,
        decimal(entry.context_size as nat),
        "--alias"@,
        entry.id@,
        "--host"@,
        "127.0.0.1"@,
        "--port"@,
        decimal(port as nat),
    ] + optional(
        "--reasoning-format"@,
        match entry.reasoning_format {
            Some(f) => Some(f@),
            None => None,
        },
    ) + optional(
        "--reasoning-effort"@,
        match entry.reasoning_effort {
            Some(e) => Some(e@),
            None => None,
        },
    ) + flags_arguments(entry.flags@)
}

/// The texts of a list of arguments.
pub open spec fn texts(args: Seq<String>) -> Seq<Seq<char>> {
    args.map_values(|a: String| a@)
}

/// The long spelling of a flag.
fn long_form_of(key: &str) -> (r: String)
    ensures
        r@ == long_form(key@),
{
    let k = chars_of(key);
    if same(&k, &chars_of("c")) {
        String::from_str("ctx-size")
    } else if same(&k, &chars_of("ctk")) {
        String::from_str("cache-type-k")
    } else if same(&k, &chars_of("ctv")) {
        String::from_str("cache-type-v")
    } else if same(&k, &chars_of("fa")) {
        String::from_str("flash-attn")
    } else if same(&k, &chars_of("np")) {
        String::from_str("parallel")
    } else {
        String::from_str(key)
    }
}

/// Appends an argument.
fn push_text(args: &mut Vec<String>, a: String)
    ensures
        texts(final(args)@) == texts(old(args)@).push(a@),
{
    let ghost before = texts(args@);
    args.push(a);
    assert(texts(args@) =~= before.push(a@));
}

/// Appends a flag and its value, when there is a value.
fn push_optional(args: &mut Vec<String>, flag: &str, value: Option<String>)
    ensures
        texts(final(args)@) == texts(old(args)@) + optional(
            flag@,
            match value {
                Some(v) => Some(v@),
                None => None,
            },
        ),
{
    let ghost before = texts(args@);
    match value {
        Some(v) => {
            let ghost vv = v@;
            push_text(args, String::from_str(flag));
            push_text(args, v);
            assert(texts(args@) =~= before + seq![flag@, vv]);
        },
        None => {
            assert(texts(args@) =~= before + Seq::<Seq<char>>::empty());
        },
    }
}

/// The command line for one entry, without the binary that runs it.
#[verifier::rlimit(40)]
pub fn of(entry: &Entry, root: &str, port: u16) -> (r: Vec<String>)
    ensures
        texts(r@) == command_line(*entry, root@, port),
{
    let mut args: Vec<String> = Vec::new();
    push_text(&mut args, String::from_str("--model"));
    push_text(&mut args, entry.path.resolve(root));
    let draft = match &entry.draft_path {
        Some(p) => Some(p.resolve(root)),
        None => None,
    };
    push_optional(&mut args, "--model-draft", draft);
    let projector = match &entry.projector_path {
        Some(p) => Some(p.resolve(root)),
        None => None,
    };
    push_optional(&mut args, "--mmproj", projector);
    push_text(&mut args, String::from_str("--ctx-size"));
    push_text(&mut args, decimal_string(entry.context_size as u128));
    push_text(&mut args, String::from_str("--alias"));
    push_text(&mut args, entry.id.clone());
    push_text(&mut args, String::from_str("--host"));
    push_text(&mut args, String::from_str(HOST));
    push_text(&mut args, String::from_str("--port"));
    push_text(&mut args, decimal_string(port as u128));
    let format = match &entry.reasoning_format {
        Some(f) => Some(f.clone()),
        None => None,
    };
    push_optional(&mut args, "--reasoning-format", format);
    let effort = match &entry.reasoning_effort {
        Some(e) => Some(e.clone()),
        None => None,
    };
    push_optional(&mut args, "--reasoning-effort", effort);
    let ghost fixed = texts(args@);
    let pairs = entry.flags.pairs();
    let ghost all = pairs_view(pairs@);
    let mut i: usize = 0;
    assert(all.subrange(0, 0) =~= Seq::<(Seq<char>, Seq<char>)>::empty());
    assert(fixed + flags_arguments(Seq::empty()) =~= fixed);
    while i < pairs.len()
        invariant
            i <= pairs.len(),
            all == pairs_view(pairs@),
            texts(args@) == fixed + flags_arguments(all.subrange(0, i as int)),
        decreases pairs.len() - i,
    {
        assert(all.subrange(0, i + 1).drop_last() =~= all.subrange(0, i as int));
        assert(all.subrange(0, i + 1).last() == (pairs@[i as int].0@, pairs@[i as int].1@));
        let key = pairs[i].0.as_str();
        let value = pairs[i].1.as_str();
        let v = chars_of(value);
        let ghost was = texts(args@);
        if same(&v, &chars_of("true")) {
            let mut a = String::from_str("--");
            a.append(long_form_of(key).as_str());
            push_text(&mut args, a);
        } else if same(&v, &chars_of("false")) {
            let mut a = String::from_str("--no-");
            a.append(key);
            push_text(&mut args, a);
        } else {
            let mut a = String::from_str("--");
            a.append(long_form_of(key).as_str());
            push_text(&mut args, a);
            push_text(&mut args, String::from_str(value));
        }
        assert(texts(args@) =~= was + flag_arguments(pairs@[i as int].0@, pairs@[i as int].1@));
        i += 1;
    }
    assert(all.subrange(0, pairs.len() as int) =~= all);
    assert(entry.flags@ == all);
    args
}

} // verus!

//! One shard's place in a split model, read from a name such as
//! `model-00001-of-00004.gguf`, and the names of its siblings.

use vstd::prelude::*;

use crate::text::{
    all_digits, chars_of, is_digit, padded, padded_chars, parse_u64, read_u64, rsplit_once,
    split_at_last, string_of,
};

verus! {

/// What a shard suffix says: the name before it, the shard's index, the
/// count as written, and the extension.
pub open spec fn shard_named(name: Seq<char>) -> Option<(Seq<char>, u64, Seq<char>, Seq<char>)> {
    match rsplit_once(name, "."@) {
        None => None,
        Some((rest, extension)) => match rsplit_once(rest, "-of-"@) {
            None => None,
            Some((head, total)) => match rsplit_once(head, "-"@) {
                None => None,
                Some((stem, index)) => if total.len() == 0 || !all_digits(total) || index.len()
                    != total.len() || !all_digits(index) {
                    None
                } else {
                    match parse_u64(index) {
                        Some(n) => Some((stem, n, total, extension)),
                        None => None,
                    }
                },
            },
        },
    }
}

/// The name of the shard at `index` of the same model.
pub open spec fn sibling_name(stem: Seq<char>, total: Seq<char>, extension: Seq<char>, index: nat) -> Seq<char> {
    stem + "-"@ + padded(index, total.len()) + "-of-"@ + total + "."@ + extension
}

/// Where the last separator of a path stands, if it has one.
pub open spec fn last_separator(path: Seq<char>) -> Option<int> {
    crate::text::last_below(path, "/"@, path.len() + 1)
}

/// The last component of a path: what follows its last separator.
pub open spec fn file_name(path: Seq<char>) -> Seq<char> {
    match last_separator(path) {
        Some(at) => path.subrange(at + 1, path.len() as int),
        None => path,
    }
}

/// The path with its last component replaced, as `Path::with_file_name`
/// puts it.
pub open spec fn with_file_name(path: Seq<char>, name: Seq<char>) -> Seq<char> {
    match last_separator(path) {
        Some(at) => path.subrange(0, at + 1) + name,
        None => name,
    }
}

/// One shard's place in a split model.
#[derive(Debug, Clone, PartialEq, Eq)]
pub struct Shard {
    /// The name before the shard suffix, which names the model.
    pub stem: String,
    pub index: u64,
    pub total: String,
    pub extension: String,
}

impl Shard {
    /// What this shard's name said.
    pub open spec fn parts(&self) -> (Seq<char>, u64, Seq<char>, Seq<char>) {
        (self.stem@, self.index, self.total@, self.extension@)
    }

    /// The path of another shard of the same model, beside this one.
    pub fn sibling(&self, model: &str, index: u64) -> (r: String)
        ensures
            r@ == with_file_name(
                model@,
                sibling_name(self.stem@, self.total@, self.extension@, index as nat),
            ),
    {
        let mut name = String::from_str(self.stem.as_str());
        name.append("-");
        let width = self.total.as_str().unicode_len();
        let padding = padded_chars(index as u128, width);
        name.append(string_of(padding.as_slice()).as_str());
        name.append("-of-");
        name.append(self.total.as_str());
        name.append(".");
        name.append(self.extension.as_str());
        let ghost wanted = sibling_name(self.stem@, self.total@, self.extension@, index as nat);
        assert(name@ =~= wanted);
        let path = chars_of(model);
        match split_at_last(&path, &chars_of("/")) {
            Some((parent, _)) => {
                let mut out = string_of(parent.as_slice());
                out.append("/");
                out.append(name.as_str());
                proof {
                    reveal_strlit("/");
                    crate::text::lemma_last_below(model@, "/"@, (model@.len() + 1) as nat);
                    let at = last_separator(model@)->0;
                    assert(model@.subrange(0, at + 1) =~= model@.subrange(0, at) + model@.subrange(at, at + 1));
                }
                assert(out@ =~= with_file_name(model@, wanted));
                out
            },
            None => name,
        }
    }
}

/// Whether every character of a text is an ASCII digit.
fn only_digits(v: &Vec<char>) -> (b: bool)
    ensures
        b == all_digits(v@),
{
    let mut i: usize = 0;
    while i < v.len()
        invariant
            i <= v.len(),
            forall|k: int| 0 <= k < i ==> is_digit(#[trigger] v@[k]),
        decreases v.len() - i,
    {
        if !('0' <= v[i] && v[i] <= '9') {
            assert(!is_digit(v@[i as int]));
            return false;
        }
        i += 1;
    }
    true
}

/// Reads a shard suffix off a file name, if it carries one.
pub fn shard_of(name: &str) -> (r: Option<Shard>)
    ensures
        match r {
            Some(s) => shard_named(name@) == Some(s.parts()),
            None => shard_named(name@) is None,
        },
{
    let v = chars_of(name);
    let (rest, extension) = match split_at_last(&v, &chars_of(".")) {
        Some(p) => p,
        None => return None,
    };
    let (head, total) = match split_at_last(&rest, &chars_of("-of-")) {
        Some(p) => p,
        None => return None,
    };
    let (stem, index) = match split_at_last(&head, &chars_of("-")) {
        Some(p) => p,
        None => return None,
    };
    if total.len() == 0 || !only_digits(&total) {
        return None;
    }
    if index.len() != total.len() || !only_digits(&index) {
        return None;
    }
    match read_u64(&index) {
        Some(n) => Some(
            Shard {
                stem: string_of(stem.as_slice()),
                index: n,
                total: string_of(total.as_slice()),
                extension: string_of(extension.as_slice()),
            },
        ),
        None => None,
    }
}

} // verus!

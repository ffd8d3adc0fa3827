//! The path type the catalog is built from.
//!
//! Every location in a catalog is relative, and resolution against a models
//! root is a separate step the caller asks for. That split is what keeps a
//! parsed catalog inert: it describes where files sit inside a root without
//! deciding which root, so the same catalog is correct on every machine.

use vstd::prelude::*;

use crate::text::{chars_of, string_of};

verus! {

/// Whether a character is an ASCII letter.
pub open spec fn is_letter(c: char) -> bool {
    ('a' <= c <= 'z') || ('A' <= c <= 'Z')
}

/// What a location is anchored to, when it is anchored to anything: a
/// network share, a filesystem root, or a drive letter.
///
/// Windows spellings are refused on every platform on purpose: a catalog
/// written on one machine is read on another.
pub open spec fn anchor(value: Seq<char>) -> Option<Seq<char>> {
    if value.len() >= 2 && value[0] == '\\' && value[1] == '\\' {
        Some("a network share"@)
    } else if value.len() >= 1 && (value[0] == '/' || value[0] == '\\') {
        Some("a filesystem root"@)
    } else if value.len() >= 2 && is_letter(value[0]) && value[1] == ':' {
        Some("a drive letter"@)
    } else {
        None
    }
}

/// Why a location is refused, when it is, phrased to follow a message that
/// has already named the entry and the field.
pub open spec fn refusal(value: Seq<char>) -> Option<Seq<char>> {
    if value.len() == 0 {
        Some("must not be empty"@)
    } else {
        match anchor(value) {
            Some(a) => Some(
                "must be relative to the models root, but '"@ + value + "' is anchored to "@ + a,
            ),
            None => None,
        }
    }
}

/// Where a location sits under a root, as `Path::join` puts it: the root,
/// a separator unless the root already ends in one, and the location. An
/// empty root leaves the location as it is.
pub open spec fn joined(root: Seq<char>, location: Seq<char>) -> Seq<char> {
    if root.len() == 0 {
        location
    } else if root.last() == '/' {
        root + location
    } else {
        root + "/"@ + location
    }
}

/// Where a location sits under a root.
pub fn resolved(root: &str, location: &str) -> (r: String)
    ensures
        r@ == joined(root@, location@),
{
    let v = chars_of(root);
    if v.len() == 0 {
        return String::from_str(location);
    }
    let mut out = String::from_str(root);
    if v[v.len() - 1] != '/' {
        out.append("/");
    }
    out.append(location);
    out
}

/// What a value is anchored to, if anything.
pub fn anchor_of(value: &str) -> (r: Option<String>)
    ensures
        match r {
            Some(a) => anchor(value@) == Some(a@),
            None => anchor(value@) is None,
        },
{
    let v = chars_of(value);
    let n = v.len();
    if n >= 2 && v[0] == '\\' && v[1] == '\\' {
        return Some(String::from_str("a network share"));
    }
    if n >= 1 && (v[0] == '/' || v[0] == '\\') {
        return Some(String::from_str("a filesystem root"));
    }
    if n >= 2 && (('a' <= v[0] && v[0] <= 'z') || ('A' <= v[0] && v[0] <= 'Z')) && v[1] == ':' {
        return Some(String::from_str("a drive letter"));
    }
    None
}

/// A location inside the models root.
///
/// # Invariant
///
/// A value of this type is always relative. The constructor refuses anything
/// anchored to one machine -- a Unix root, a Windows drive letter, or a UNC
/// share -- so a catalog cannot carry such a path even if someone writes one
/// into the file.
#[derive(Debug, PartialEq, Eq)]
pub struct RelativePath(String);

impl View for RelativePath {
    type V = Seq<char>;

    closed spec fn view(&self) -> Seq<char> {
        self.0@
    }
}

impl Clone for RelativePath {
    fn clone(&self) -> (r: Self)
        ensures
            r@ == self@,
    {
        RelativePath(self.0.clone())
    }
}

impl RelativePath {
    /// Every value of this type is a location no machine anchors.
    pub closed spec fn well_formed(&self) -> bool {
        refusal(self@) is None
    }

    /// Accepts a relative location, refusing anything machine-anchored.
    ///
    /// # Errors
    ///
    /// Returns the reason the value was refused, phrased to be embedded in a
    /// message that has already named the entry and the field.
    pub fn new(value: &str) -> (r: Result<Self, String>)
        ensures
            match r {
                Ok(path) => path@ == value@ && refusal(value@) is None && path.well_formed(),
                Err(why) => refusal(value@) == Some(why@),
            },
    {
        let v = chars_of(value);
        if v.len() == 0 {
            return Err(String::from_str("must not be empty"));
        }
        if let Some(a) = anchor_of(value) {
            let mut why = String::from_str("must be relative to the models root, but '");
            why.append(value);
            why.append("' is anchored to ");
            why.append(a.as_str());
            return Err(why);
        }
        Ok(RelativePath(string_of(v.as_slice())))
    }

    /// The location as written in the catalog.
    pub fn as_str(&self) -> (s: &str)
        ensures
            s@ == self@,
    {
        self.0.as_str()
    }

    /// Where this location sits under a given models root.
    pub fn resolve(&self, root: &str) -> (r: String)
        ensures
            r@ == joined(root@, self@),
    {
        resolved(root, self.0.as_str())
    }
}

} // verus!

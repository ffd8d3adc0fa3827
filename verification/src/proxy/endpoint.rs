//! Which endpoint a path addressed.
//!
//! Pure conversion: a string in, a shape out. No socket, no process, no
//! catalog. Whether the model a shape names actually exists is the caller's
//! question, asked against the catalog after this has answered.

use vstd::prelude::*;

use super::refusal::{Cause, Refusal};
use crate::text::{
    chars_of, matches_at, same, slice, split_at_first, split_once, starts_with, string_of,
};

verus! {

/// Which endpoint a path addressed, and what the child is asked for.
#[derive(Debug, Clone, PartialEq, Eq)]
pub enum Endpoint {
    /// `/models/<id>/<suffix>`: the path names the model.
    Dedicated { id: String, suffix: String },
    /// `/v1/<suffix>`: the body names the model.
    Generic { suffix: String },
    /// `/v1/models`: the router answers this itself.
    Listing,
    /// `/models`: the same question in the shape a llama.cpp client asks it,
    /// which carries each entry's status rather than only its name.
    Catalogue,
    /// `/props`: what the server itself does, which is how a client decides
    /// whether it is talking to a router at all.
    Properties,
    /// `/models/<id>`: the entry itself rather than something under it. What
    /// can be asked of it is whether it is resident.
    Residency { id: String },
}

/// An endpoint as its texts.
pub enum Route {
    Dedicated { id: Seq<char>, suffix: Seq<char> },
    Generic { suffix: Seq<char> },
    Listing,
    Catalogue,
    Properties,
    Residency { id: Seq<char> },
}

impl View for Endpoint {
    type V = Route;

    open spec fn view(&self) -> Route {
        match self {
            Endpoint::Dedicated { id, suffix } => Route::Dedicated { id: id@, suffix: suffix@ },
            Endpoint::Generic { suffix } => Route::Generic { suffix: suffix@ },
            Endpoint::Listing => Route::Listing,
            Endpoint::Catalogue => Route::Catalogue,
            Endpoint::Properties => Route::Properties,
            Endpoint::Residency { id } => Route::Residency { id: id@ },
        }
    }
}

/// Text with every trailing `c` taken off.
pub open spec fn strip_trailing(s: Seq<char>, c: char) -> Seq<char>
    decreases s.len(),
{
    if s.len() > 0 && s.last() == c {
        strip_trailing(s.drop_last(), c)
    } else {
        s
    }
}

/// The text before the first `c`, or all of it when there is none.
pub open spec fn before_first(s: Seq<char>, c: char) -> Seq<char> {
    match split_once(s, c) {
        Some((before, _)) => before,
        None => s,
    }
}

/// Why a dedicated path with nothing after the model is refused.
pub open spec fn nothing_after_text(path: Seq<char>) -> Seq<char> {
    "'"@ + path
        + "' names a model with nothing after it: the shape is /models/<model>/<path>"@
}

/// Why a path of no shape the router serves is refused.
pub open spec fn no_shape_text(path: Seq<char>) -> Seq<char> {
    "'"@ + path
        + "' is not a path this router serves: the shapes are /models/<model>/<path> and /v1/<path>"@
}

/// The shape a path addresses, or why it addresses none.
///
/// The catalogue and the server's settings are read before the dedicated
/// shape, which would otherwise read `/models/` as a model named nothing; a
/// trailing slash is the same request either way. The listing is read before
/// the generic shape it sits inside, with a query and trailing slashes set
/// aside.
pub open spec fn route_of(path: Seq<char>) -> Result<Route, Seq<char>> {
    let bare = strip_trailing(path, '/');
    if bare == "/models"@ {
        Ok(Route::Catalogue)
    } else if bare == "/props"@ {
        Ok(Route::Properties)
    } else if starts_with(path, "/models/"@) {
        let rest = path.subrange(8, path.len() as int);
        let named = strip_trailing(rest, '/');
        let dedicated = match split_once(rest, '/') {
            Some((id, suffix)) => if id.len() > 0 && suffix.len() > 0 {
                Some(Route::Dedicated { id, suffix: "/"@ + suffix })
            } else {
                None
            },
            None => None,
        };
        match dedicated {
            Some(r) => Ok(r),
            None => if named.len() > 0 && !named.contains('/') {
                Ok(Route::Residency { id: named })
            } else {
                Err(nothing_after_text(path))
            },
        }
    } else if strip_trailing(before_first(path, '?'), '/') == "/v1/models"@ {
        Ok(Route::Listing)
    } else if starts_with(path, "/v1/"@) {
        Ok(Route::Generic { suffix: path })
    } else {
        Err(no_shape_text(path))
    }
}

/// The methods an endpoint answers, in the order `Allow` says them.
pub open spec fn allowed_methods(r: Route) -> Seq<Seq<char>> {
    match r {
        Route::Listing | Route::Catalogue | Route::Properties => seq![
            "GET"@,
            "HEAD"@,
            "OPTIONS"@,
        ],
        Route::Dedicated { .. } | Route::Generic { .. } => seq!["GET"@, "POST"@, "OPTIONS"@],
        Route::Residency { .. } => seq!["DELETE"@, "OPTIONS"@],
    }
}

/// The methods an endpoint answers, as an `Allow` header says them.
pub open spec fn allowed_text(r: Route) -> Seq<char> {
    match r {
        Route::Listing | Route::Catalogue | Route::Properties => "GET, HEAD, OPTIONS"@,
        Route::Dedicated { .. } | Route::Generic { .. } => "GET, POST, OPTIONS"@,
        Route::Residency { .. } => "DELETE, OPTIONS"@,
    }
}

/// What the child is asked for.
pub open spec fn suffix_of(r: Route) -> Seq<char> {
    match r {
        Route::Dedicated { suffix, .. } => suffix,
        Route::Generic { suffix } => suffix,
        Route::Listing => "/v1/models"@,
        Route::Catalogue | Route::Residency { .. } => "/models"@,
        Route::Properties => "/props"@,
    }
}

/// Where the characters `strip_trailing` keeps end.
fn end_before_trailing(v: &Vec<char>, to: usize, c: char) -> (j: usize)
    requires
        to <= v.len(),
    ensures
        j <= to,
        strip_trailing(v@.subrange(0, to as int), c) == v@.subrange(0, j as int),
{
    let mut j = to;
    while j > 0 && v[j - 1] == c
        invariant
            j <= to <= v.len(),
            strip_trailing(v@.subrange(0, to as int), c) == strip_trailing(
                v@.subrange(0, j as int),
                c,
            ),
        decreases j,
    {
        assert(v@.subrange(0, j as int).drop_last() =~= v@.subrange(0, j - 1));
        j -= 1;
    }
    assert(strip_trailing(v@.subrange(0, j as int), c) == v@.subrange(0, j as int));
    j
}

/// Text with every trailing `c` taken off.
pub fn stripped_of_trailing(v: &Vec<char>, c: char) -> (r: Vec<char>)
    ensures
        r@ == strip_trailing(v@, c),
{
    assert(v@.subrange(0, v.len() as int) =~= v@);
    let j = end_before_trailing(v, v.len(), c);
    slice(v, 0, j)
}

/// Whether a text holds a character anywhere.
fn has_char(v: &Vec<char>, c: char) -> (b: bool)
    ensures
        b == v@.contains(c),
{
    let mut i: usize = 0;
    while i < v.len()
        invariant
            i <= v.len(),
            forall|j: int| 0 <= j < i ==> v@[j] != c,
        decreases v.len() - i,
    {
        if v[i] == c {
            assert(v@[i as int] == c);
            return true;
        }
        i += 1;
    }
    false
}

/// A path refused as no shape the router serves.
fn malformed(reason: String) -> (r: Refusal)
    ensures
        r.cause == Cause::PathNotFound,
        r.message@ == reason@,
{
    Refusal::new(Cause::PathNotFound, reason)
}

impl Endpoint {
    /// The shape a path addresses.
    ///
    /// # Errors
    ///
    /// Returns a [`Refusal`] when the path is neither shape, or when it names
    /// a model with nothing after it.
    pub fn of(path: &str) -> (r: Result<Self, Refusal>)
        ensures
            match route_of(path@) {
                Ok(route) => r matches Ok(e) && e@ == route,
                Err(why) => r matches Err(refusal) && refusal.cause == Cause::PathNotFound
                    && refusal.message@ == why,
            },
    {
        let p = chars_of(path);
        let bare = stripped_of_trailing(&p, '/');
        if same(&bare, &chars_of("/models")) {
            return Ok(Endpoint::Catalogue);
        }
        if same(&bare, &chars_of("/props")) {
            return Ok(Endpoint::Properties);
        }
        let dedicated = chars_of("/models/");
        proof {
            reveal_strlit("/models/");
        }
        if matches_at(&p, &dedicated, 0) {
            let rest = slice(&p, 8, p.len());
            let named = stripped_of_trailing(&rest, '/');
            if let Some((id, suffix)) = split_at_first(&rest, '/') {
                if id.len() > 0 && suffix.len() > 0 {
                    let mut s = String::from_str("/");
                    s.append(string_of(suffix.as_slice()).as_str());
                    return Ok(
                        Endpoint::Dedicated { id: string_of(id.as_slice()), suffix: s },
                    );
                }
            }
            if named.len() > 0 && !has_char(&named, '/') {
                return Ok(Endpoint::Residency { id: string_of(named.as_slice()) });
            }
            let mut m = String::from_str("'");
            m.append(path);
            m.append("' names a model with nothing after it: the shape is /models/<model>/<path>");
            return Err(malformed(m));
        }
        let before = match split_at_first(&p, '?') {
            Some((b, _)) => b,
            None => slice(&p, 0, p.len()),
        };
        assert(p@.subrange(0, p.len() as int) =~= p@);
        if same(&stripped_of_trailing(&before, '/'), &chars_of("/v1/models")) {
            return Ok(Endpoint::Listing);
        }
        if matches_at(&p, &chars_of("/v1/"), 0) {
            return Ok(Endpoint::Generic { suffix: string_of(p.as_slice()) });
        }
        let mut m = String::from_str("'");
        m.append(path);
        m.append(
            "' is not a path this router serves: the shapes are /models/<model>/<path> and /v1/<path>",
        );
        Err(malformed(m))
    }

    /// The methods this endpoint answers, as an `Allow` header says them.
    ///
    /// A model is asked something with `POST`, and asked about itself with
    /// `GET`; the listing is read, and `HEAD` reads its head. A `DELETE`
    /// means something only at the one path that names an entry and nothing
    /// under it, where it can be answered without starting anything.
    pub fn allowed(&self) -> (r: &'static str)
        ensures
            r@ == allowed_text(self@),
    {
        match self {
            Endpoint::Listing | Endpoint::Catalogue | Endpoint::Properties => "GET, HEAD, OPTIONS",
            Endpoint::Dedicated { .. } | Endpoint::Generic { .. } => "GET, POST, OPTIONS",
            Endpoint::Residency { .. } => "DELETE, OPTIONS",
        }
    }

    /// Whether a method is one this endpoint answers.
    pub fn allows(&self, method: &str) -> (b: bool)
        ensures
            b == allowed_methods(self@).contains(method@),
    {
        let m = chars_of(method);
        let get = same(&m, &chars_of("GET"));
        let head = same(&m, &chars_of("HEAD"));
        let options = same(&m, &chars_of("OPTIONS"));
        let post = same(&m, &chars_of("POST"));
        let delete = same(&m, &chars_of("DELETE"));
        let ghost list = allowed_methods(self@);
        match self {
            Endpoint::Listing | Endpoint::Catalogue | Endpoint::Properties => {
                proof {
                    if get {
                        assert(list[0] == method@);
                    }
                    if head {
                        assert(list[1] == method@);
                    }
                    if options {
                        assert(list[2] == method@);
                    }
                    assert(list.len() == 3);
                }
                get || head || options
            },
            Endpoint::Dedicated { .. } | Endpoint::Generic { .. } => {
                proof {
                    if get {
                        assert(list[0] == method@);
                    }
                    if post {
                        assert(list[1] == method@);
                    }
                    if options {
                        assert(list[2] == method@);
                    }
                    assert(list.len() == 3);
                }
                get || post || options
            },
            Endpoint::Residency { .. } => {
                proof {
                    if delete {
                        assert(list[0] == method@);
                    }
                    if options {
                        assert(list[1] == method@);
                    }
                    assert(list.len() == 2);
                }
                delete || options
            },
        }
    }

    /// What the child is asked for.
    ///
    /// The generic endpoint strips nothing: the caller's own path is what the
    /// child receives, because the model was named in the body rather than
    /// taken out of the path. The endpoints the router answers itself carry
    /// their own paths, though nothing is sent upstream for them.
    pub fn suffix(&self) -> (r: &str)
        ensures
            r@ == suffix_of(self@),
    {
        match self {
            Endpoint::Dedicated { suffix, .. } => suffix.as_str(),
            Endpoint::Generic { suffix } => suffix.as_str(),
            Endpoint::Listing => "/v1/models",
            Endpoint::Catalogue | Endpoint::Residency { .. } => "/models",
            Endpoint::Properties => "/props",
        }
    }
}

} // verus!

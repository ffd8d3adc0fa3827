//! Characters and the few things done with them: white space, trimming,
//! splitting into lines and words, case, and decimal numbers in both
//! directions.
//!
//! Everything the router reads is text someone else wrote -- a catalog, a
//! request head, what a platform tool printed -- and every reader here states
//! exactly what it accepts, so a figure that cannot be read is `None` rather
//! than a guess.

use vstd::prelude::*;

verus! {

/// Whether a character is white space, as Unicode's `White_Space` property
/// says and `char::is_whitespace` answers.
pub open spec fn is_space(c: char) -> bool {
    let u = c as u32;
    ||| 9 <= u <= 13
    ||| u == 32
    ||| u == 0x85
    ||| u == 0xA0
    ||| u == 0x1680
    ||| 0x2000 <= u <= 0x200A
    ||| u == 0x2028
    ||| u == 0x2029
    ||| u == 0x202F
    ||| u == 0x205F
    ||| u == 0x3000
}

/// Whether a character is white space.
pub fn space(c: char) -> (b: bool)
    ensures
        b == is_space(c),
{
    let u = c as u32;
    (9 <= u && u <= 13) || u == 32 || u == 0x85 || u == 0xA0 || u == 0x1680 || (0x2000 <= u
        && u <= 0x200A) || u == 0x2028 || u == 0x2029 || u == 0x202F || u == 0x205F || u == 0x3000
}

/// A string's characters, in order, which is what its view is.
pub(crate) fn chars_of(s: &str) -> (v: Vec<char>)
    ensures
        v@ == s@,
{
    broadcast use vstd::string::axiom_spec_iter, vstd::string::next_postcondition;

    let mut v: Vec<char> = Vec::new();
    for c in iter: s.chars()
        invariant
            iter.seq() == s@,
            v@ == iter.seq().take(iter.index() as int),
    {
        v.push(c);
    }
    v
}

/// Characters collected into a `String` (`FromIterator<&char>`): a string
/// holding exactly these characters, in order.
#[verifier::external_body]
pub(crate) fn string_of(v: &[char]) -> (s: String)
    ensures
        s@ == v@,
{
    v.iter().collect()
}

/// A copy of one stretch of characters.
pub fn slice(v: &Vec<char>, from: usize, to: usize) -> (r: Vec<char>)
    requires
        from <= to <= v.len(),
    ensures
        r@ == v@.subrange(from as int, to as int),
{
    let mut r: Vec<char> = Vec::new();
    let mut i = from;
    while i < to
        invariant
            from <= i <= to <= v.len(),
            r@ == v@.subrange(from as int, i as int),
        decreases to - i,
    {
        r.push(v[i]);
        i += 1;
        assert(r@ =~= v@.subrange(from as int, i as int));
    }
    r
}

/// What is left once white space is taken off the front.
pub open spec fn trim_start(s: Seq<char>) -> Seq<char>
    decreases s.len(),
{
    if s.len() > 0 && is_space(s[0]) {
        trim_start(s.drop_first())
    } else {
        s
    }
}

/// What is left once white space is taken off the end.
pub open spec fn trim_end(s: Seq<char>) -> Seq<char>
    decreases s.len(),
{
    if s.len() > 0 && is_space(s.last()) {
        trim_end(s.drop_last())
    } else {
        s
    }
}

/// What `str::trim` leaves: white space taken off both ends.
pub open spec fn trim(s: Seq<char>) -> Seq<char> {
    trim_end(trim_start(s))
}

/// Where the characters `trim_start` keeps begin.
pub fn start_of_text(v: &Vec<char>) -> (i: usize)
    ensures
        i <= v.len(),
        trim_start(v@) == v@.subrange(i as int, v.len() as int),
{
    let mut i: usize = 0;
    assert(v@.subrange(0, v.len() as int) =~= v@);
    while i < v.len() && space(v[i as usize])
        invariant
            i <= v.len(),
            trim_start(v@) == trim_start(v@.subrange(i as int, v.len() as int)),
        decreases v.len() - i,
    {
        assert(v@.subrange(i as int, v.len() as int).drop_first() =~= v@.subrange(
            i + 1,
            v.len() as int,
        ));
        i += 1;
    }
    i
}

/// Where the characters `trim_end` keeps, within `v[from..to]`, end.
pub fn end_of_text(v: &Vec<char>, from: usize, to: usize) -> (j: usize)
    requires
        from <= to <= v.len(),
    ensures
        from <= j <= to,
        trim_end(v@.subrange(from as int, to as int)) == v@.subrange(from as int, j as int),
{
    let mut j = to;
    while j > from && space(v[j - 1])
        invariant
            from <= j <= to <= v.len(),
            trim_end(v@.subrange(from as int, to as int)) == trim_end(
                v@.subrange(from as int, j as int),
            ),
        decreases j,
    {
        assert(v@.subrange(from as int, j as int).drop_last() =~= v@.subrange(
            from as int,
            j - 1,
        ));
        j -= 1;
    }
    j
}

/// `str::trim`.
pub fn trimmed(v: &Vec<char>) -> (r: Vec<char>)
    ensures
        r@ == trim(v@),
{
    let i = start_of_text(v);
    let j = end_of_text(v, i, v.len());
    slice(v, i, j)
}

/// `str::trim`, from a string to a string.
pub fn trim_string(s: &str) -> (r: String)
    ensures
        r@ == trim(s@),
{
    let v = chars_of(s);
    let t = trimmed(&v);
    string_of(t.as_slice())
}

/// Whether a character is an ASCII digit.
pub open spec fn is_digit(c: char) -> bool {
    '0' <= c <= '9'
}

/// The value of one ASCII digit.
pub open spec fn digit_value(c: char) -> nat {
    (c as u32 - '0' as u32) as nat
}

/// Whether every character is an ASCII digit.
pub open spec fn all_digits(s: Seq<char>) -> bool {
    forall|i: int| 0 <= i < s.len() ==> is_digit(#[trigger] s[i])
}

/// The number a run of digits spells, most significant first.
pub open spec fn digits_value(s: Seq<char>) -> nat
    decreases s.len(),
{
    if s.len() == 0 {
        0
    } else {
        digits_value(s.drop_last()) * 10 + digit_value(s.last())
    }
}

/// The digits of a number written with `str::parse` in mind: an optional
/// `+`, then at least one digit and nothing else.
pub open spec fn unsigned_digits(s: Seq<char>) -> Option<Seq<char>> {
    let d = if s.len() > 0 && s[0] == '+' {
        s.drop_first()
    } else {
        s
    };
    if d.len() > 0 && all_digits(d) {
        Some(d)
    } else {
        None
    }
}

/// The whole number `str::parse` reads from this text, before any bound on
/// its size is applied.
pub open spec fn whole_number(s: Seq<char>) -> Option<nat> {
    match unsigned_digits(s) {
        Some(d) => Some(digits_value(d)),
        None => None,
    }
}

/// What `str::parse::<u64>` answers.
pub open spec fn parse_u64(s: Seq<char>) -> Option<u64> {
    match whole_number(s) {
        Some(n) => if n <= u64::MAX {
            Some(n as u64)
        } else {
            None
        },
        None => None,
    }
}

/// What `str::parse::<u32>` answers.
pub open spec fn parse_u32(s: Seq<char>) -> Option<u32> {
    match whole_number(s) {
        Some(n) => if n <= u32::MAX {
            Some(n as u32)
        } else {
            None
        },
        None => None,
    }
}

/// What `str::parse::<usize>` answers.
pub open spec fn parse_usize(s: Seq<char>) -> Option<usize> {
    match whole_number(s) {
        Some(n) => if n <= usize::MAX {
            Some(n as usize)
        } else {
            None
        },
        None => None,
    }
}

/// Reads a whole number the way `str::parse::<u64>` does.
pub fn read_u64(v: &Vec<char>) -> (r: Option<u64>)
    ensures
        r == parse_u64(v@),
{
    let n = v.len();
    let start: usize = if n > 0 && v[0] == '+' {
        1
    } else {
        0
    };
    let ghost d = if v@.len() > 0 && v@[0] == '+' {
        v@.drop_first()
    } else {
        v@
    };
    assert(d =~= v@.subrange(start as int, n as int));
    if start == n {
        return None;
    }
    let mut acc: u64 = 0;
    let mut over = false;
    let mut i = start;
    while i < n
        invariant
            start < n == v.len(),
            start <= i <= n,
            d == v@.subrange(start as int, n as int),
            d == (if v@.len() > 0 && v@[0] == '+' {
                v@.drop_first()
            } else {
                v@
            }),
            forall|k: int| start <= k < i ==> is_digit(#[trigger] v@[k]),
            !over ==> acc == digits_value(v@.subrange(start as int, i as int)),
            over ==> digits_value(v@.subrange(start as int, i as int)) > u64::MAX,
        decreases n - i,
    {
        let c = v[i];
        if !('0' <= c && c <= '9') {
            assert(!is_digit(d[i - start]));
            assert(!all_digits(d));
            assert(unsigned_digits(v@) is None);
            return None;
        }
        let digit = (c as u32 - '0' as u32) as u64;
        let ghost before = v@.subrange(start as int, i as int);
        assert(v@.subrange(start as int, i + 1).drop_last() =~= before);
        if !over {
            match acc.checked_mul(10) {
                Some(tens) => match tens.checked_add(digit) {
                    Some(next) => {
                        acc = next;
                    },
                    None => {
                        over = true;
                    },
                },
                None => {
                    over = true;
                },
            }
        }
        i += 1;
    }
    assert(v@.subrange(start as int, n as int) =~= d);
    assert(all_digits(d));
    if over {
        None
    } else {
        Some(acc)
    }
}

/// Reads a whole number the way `str::parse::<u32>` does.
pub fn read_u32(v: &Vec<char>) -> (r: Option<u32>)
    ensures
        r == parse_u32(v@),
{
    match read_u64(v) {
        Some(n) => if n <= u32::MAX as u64 {
            Some(n as u32)
        } else {
            None
        },
        None => None,
    }
}

/// Reads a whole number the way `str::parse::<usize>` does.
pub fn read_usize(v: &Vec<char>) -> (r: Option<usize>)
    ensures
        r == parse_usize(v@),
{
    match read_u64(v) {
        Some(n) => if n <= usize::MAX as u64 {
            Some(n as usize)
        } else {
            None
        },
        None => None,
    }
}

/// The digit that spells a value below ten.
pub open spec fn digit_char(d: nat) -> char {
    (d + '0' as u32) as char
}

/// A number written in decimal, as `to_string` writes it: no sign, no
/// leading zeros, and `0` for zero.
pub open spec fn decimal(n: nat) -> Seq<char>
    decreases n,
{
    if n < 10 {
        seq![digit_char(n)]
    } else {
        decimal(n / 10).push(digit_char(n % 10))
    }
}

/// The characters of a number written in decimal.
pub fn decimal_chars(n: u128) -> (v: Vec<char>)
    ensures
        v@ == decimal(n as nat),
{
    let mut v: Vec<char> = Vec::new();
    let mut rest = n;
    let ghost mut tail: Seq<char> = Seq::empty();
    // Digits come out least significant first, so each is put in front.
    loop
        invariant
            decimal(n as nat) == decimal(rest as nat) + v@,
        decreases rest,
    {
        let d: u128 = rest % 10;
        let c = char_of_digit(d);
        if rest < 10 {
            v.insert(0, c);
            assert(decimal(rest as nat) =~= seq![digit_char(rest as nat)]);
            assert(decimal(n as nat) =~= v@);
            return v;
        }
        let ghost old_v = v@;
        v.insert(0, c);
        assert(decimal(rest as nat) == decimal((rest / 10) as nat).push(digit_char((rest % 10) as nat)));
        assert(decimal((rest / 10) as nat) + v@ =~= decimal(rest as nat) + old_v);
        rest = rest / 10;
    }
}

/// The character for one decimal digit.
pub fn char_of_digit(d: u128) -> (c: char)
    requires
        d < 10,
    ensures
        c == digit_char(d as nat),
{
    if d == 0 { '0' }
    else if d == 1 { '1' }
    else if d == 2 { '2' }
    else if d == 3 { '3' }
    else if d == 4 { '4' }
    else if d == 5 { '5' }
    else if d == 6 { '6' }
    else if d == 7 { '7' }
    else if d == 8 { '8' }
    else { '9' }
}

/// A number written in decimal, as a string.
pub fn decimal_string(n: u128) -> (s: String)
    ensures
        s@ == decimal(n as nat),
{
    let v = decimal_chars(n);
    string_of(v.as_slice())
}

/// Texts joined with a separator between each two, as `join` does.
pub open spec fn joined_with(parts: Seq<Seq<char>>, separator: Seq<char>) -> Seq<char>
    decreases parts.len(),
{
    if parts.len() == 0 {
        Seq::empty()
    } else if parts.len() == 1 {
        parts[0]
    } else {
        joined_with(parts.drop_last(), separator) + separator + parts.last()
    }
}

/// Strings joined with a separator between each two.
pub fn join(parts: &Vec<String>, separator: &str) -> (s: String)
    ensures
        s@ == joined_with(parts@.map_values(|p: String| p@), separator@),
{
    let ghost all = parts@.map_values(|p: String| p@);
    let mut s = String::new();
    let mut i: usize = 0;
    assert(all.subrange(0, 0) =~= Seq::<Seq<char>>::empty());
    while i < parts.len()
        invariant
            i <= parts.len(),
            all == parts@.map_values(|p: String| p@),
            s@ == joined_with(all.subrange(0, i as int), separator@),
        decreases parts.len() - i,
    {
        let ghost prefix = all.subrange(0, i + 1);
        assert(prefix.drop_last() =~= all.subrange(0, i as int));
        if i > 0 {
            s.append(separator);
        } else {
            assert(all.subrange(0, 0) =~= Seq::<Seq<char>>::empty());
        }
        s.append(parts[i].as_str());
        i += 1;
        assert(s@ =~= joined_with(all.subrange(0, i as int), separator@));
    }
    assert(all.subrange(0, parts.len() as int) =~= all);
    s
}

/// A character with ASCII upper case folded to lower, as
/// `char::to_ascii_lowercase` does.
pub open spec fn lower(c: char) -> char {
    if 'A' <= c <= 'Z' {
        ((c as u32) + 32) as char
    } else {
        c
    }
}

/// Text with ASCII upper case folded to lower.
pub open spec fn lowercase(s: Seq<char>) -> Seq<char> {
    s.map_values(|c: char| lower(c))
}

/// Whether two texts are the same once ASCII case is set aside, as
/// `str::eq_ignore_ascii_case` answers.
pub open spec fn same_ignoring_case(a: Seq<char>, b: Seq<char>) -> bool {
    lowercase(a) == lowercase(b)
}

/// One character folded to lower case.
pub fn lower_char(c: char) -> (r: char)
    ensures
        r == lower(c),
{
    if 'A' <= c && c <= 'Z' {
        let b = c as u8;
        (b + 32) as char
    } else {
        c
    }
}

/// Text folded to lower case.
pub fn to_lower(v: &Vec<char>) -> (r: Vec<char>)
    ensures
        r@ == lowercase(v@),
{
    let mut r: Vec<char> = Vec::new();
    let mut i: usize = 0;
    while i < v.len()
        invariant
            i <= v.len(),
            r@ == lowercase(v@.subrange(0, i as int)),
        decreases v.len() - i,
    {
        r.push(lower_char(v[i]));
        i += 1;
        assert(r@ =~= lowercase(v@.subrange(0, i as int)));
    }
    assert(v@.subrange(0, v.len() as int) =~= v@);
    r
}

/// Whether two texts are equal.
pub fn same(a: &Vec<char>, b: &Vec<char>) -> (r: bool)
    ensures
        r == (a@ == b@),
{
    if a.len() != b.len() {
        return false;
    }
    let mut i: usize = 0;
    while i < a.len()
        invariant
            i <= a.len() == b.len(),
            forall|k: int| 0 <= k < i ==> a@[k] == b@[k],
        decreases a.len() - i,
    {
        if a[i] != b[i] {
            return false;
        }
        i += 1;
    }
    assert(a@ =~= b@);
    true
}

/// Whether two texts are equal once ASCII case is set aside.
pub fn same_text_ignoring_case(a: &Vec<char>, b: &Vec<char>) -> (r: bool)
    ensures
        r == same_ignoring_case(a@, b@),
{
    let la = to_lower(a);
    let lb = to_lower(b);
    same(&la, &lb)
}

/// Whether a text begins with another.
pub open spec fn starts_with(s: Seq<char>, p: Seq<char>) -> bool {
    p.len() <= s.len() && s.subrange(0, p.len() as int) == p
}

/// Whether a text ends with another.
pub open spec fn ends_with(s: Seq<char>, p: Seq<char>) -> bool {
    p.len() <= s.len() && s.subrange(s.len() - p.len(), s.len() as int) == p
}

/// Whether `p` stands in `s` at position `at`.
pub open spec fn occurs_at(s: Seq<char>, p: Seq<char>, at: int) -> bool {
    0 <= at && at + p.len() <= s.len() && s.subrange(at, at + p.len()) == p
}

/// Whether `p` stands anywhere in `s`, as `str::contains` answers.
pub open spec fn contains(s: Seq<char>, p: Seq<char>) -> bool {
    exists|at: int| occurs_at(s, p, at)
}

/// Whether `p` stands in `s` at `at`.
pub fn matches_at(s: &Vec<char>, p: &Vec<char>, at: usize) -> (r: bool)
    ensures
        r == occurs_at(s@, p@, at as int),
{
    if at > s.len() || p.len() > s.len() - at {
        return false;
    }
    let mut k: usize = 0;
    while k < p.len()
        invariant
            at + p.len() <= s.len(),
            k <= p.len(),
            forall|j: int| 0 <= j < k ==> s@[at + j] == p@[j],
        decreases p.len() - k,
    {
        if s[at + k] != p[k] {
            assert(s@.subrange(at as int, at + p.len())[k as int] != p@[k as int]);
            return false;
        }
        k += 1;
    }
    assert(s@.subrange(at as int, at + p.len()) =~= p@);
    true
}

/// Whether a text begins with another.
pub fn begins(s: &Vec<char>, p: &Vec<char>) -> (r: bool)
    ensures
        r == starts_with(s@, p@),
{
    matches_at(s, p, 0)
}

/// Whether a text ends with another.
pub fn finishes(s: &Vec<char>, p: &Vec<char>) -> (r: bool)
    ensures
        r == ends_with(s@, p@),
{
    if p.len() > s.len() {
        false
    } else {
        matches_at(s, p, s.len() - p.len())
    }
}

/// Whether `p` stands anywhere in `s`.
pub fn holds(s: &Vec<char>, p: &Vec<char>) -> (r: bool)
    ensures
        r == contains(s@, p@),
{
    let mut at: usize = 0;
    loop
        invariant
            at <= s.len(),
            forall|j: int| 0 <= j < at ==> !occurs_at(s@, p@, j),
        decreases s.len() - at,
    {
        if matches_at(s, p, at) {
            return true;
        }
        if at == s.len() {
            assert forall|j: int| !occurs_at(s@, p@, j) by {
                if 0 <= j && j + p@.len() <= s@.len() {
                    assert(j <= at);
                }
            }
            return false;
        }
        at += 1;
    }
}

/// Whether `c` first appears in `s` at `at`.
pub open spec fn first_at(s: Seq<char>, c: char, at: int) -> bool {
    0 <= at < s.len() && s[at] == c && forall|j: int| 0 <= j < at ==> s[j] != c
}

/// Where `c` first appears in `s`, if it does.
pub fn index_of(v: &Vec<char>, c: char) -> (r: Option<usize>)
    ensures
        match r {
            Some(at) => first_at(v@, c, at as int),
            None => !v@.contains(c),
        },
{
    let mut i: usize = 0;
    while i < v.len()
        invariant
            i <= v.len(),
            forall|j: int| 0 <= j < i ==> v@[j] != c,
        decreases v.len() - i,
    {
        if v[i] == c {
            return Some(i);
        }
        i += 1;
    }
    None
}

/// What `str::split_once` answers for one character: the text before its
/// first appearance and the text after it, or nothing when it does not
/// appear.
pub open spec fn split_once(s: Seq<char>, c: char) -> Option<(Seq<char>, Seq<char>)> {
    if s.contains(c) {
        let at = choose|at: int| first_at(s, c, at);
        Some((s.subrange(0, at), s.subrange(at + 1, s.len() as int)))
    } else {
        None
    }
}

/// The first appearance of `c` is where it first appears.
pub proof fn lemma_first_at_unique(s: Seq<char>, c: char, a: int, b: int)
    requires
        first_at(s, c, a),
        first_at(s, c, b),
    ensures
        a == b,
{
}

/// A character that appears has a first appearance.
pub proof fn lemma_first_exists(s: Seq<char>, c: char)
    requires
        s.contains(c),
    ensures
        exists|at: int| first_at(s, c, at),
    decreases s.len(),
{
    if s.len() > 0 && s[0] == c {
        assert(first_at(s, c, 0));
    } else {
        let w = choose|i: int| 0 <= i < s.len() && s[i] == c;
        assert(s.drop_first()[w - 1] == c);
        lemma_first_exists(s.drop_first(), c);
        let at = choose|at: int| first_at(s.drop_first(), c, at);
        assert forall|j: int| 0 <= j < at + 1 implies s[j] != c by {
            if j > 0 {
                assert(s[j] == s.drop_first()[j - 1]);
            }
        }
        assert(first_at(s, c, at + 1));
    }
}

/// Splits a text at the first appearance of a character.
pub fn split_at_first(v: &Vec<char>, c: char) -> (r: Option<(Vec<char>, Vec<char>)>)
    ensures
        match r {
            Some((a, b)) => split_once(v@, c) == Some((a@, b@)),
            None => split_once(v@, c) is None,
        },
{
    match index_of(v, c) {
        Some(at) => {
            proof {
                assert(v@.contains(c)) by {
                    assert(v@[at as int] == c);
                }
                lemma_first_exists(v@, c);
                let chosen = choose|k: int| first_at(v@, c, k);
                lemma_first_at_unique(v@, c, chosen, at as int);
            }
            assert(first_at(v@, c, at as int));
            assert(at < v@.len());
            assert(at < v.len());
            let a = slice(v, 0, at);
            let b = slice(v, at + 1, v.len());
            Some((a, b))
        },
        None => None,
    }
}

/// The texts a list of character vectors holds.
pub open spec fn views(v: Seq<Vec<char>>) -> Seq<Seq<char>> {
    v.map_values(|x: Vec<char>| x@)
}

/// Lines as `str::lines` yields them, folded from the left: the lines
/// finished so far, and the one still being read.
pub open spec fn lines_fold(s: Seq<char>) -> (Seq<Seq<char>>, Seq<char>)
    decreases s.len(),
{
    if s.len() == 0 {
        (Seq::empty(), Seq::empty())
    } else {
        let (done, current) = lines_fold(s.drop_last());
        if s.last() == '\n' {
            (done.push(without_cr(current)), Seq::empty())
        } else {
            (done, current.push(s.last()))
        }
    }
}

/// A line with the carriage return of a `\r\n` ending taken off.
pub open spec fn without_cr(line: Seq<char>) -> Seq<char> {
    if line.len() > 0 && line.last() == '\r' {
        line.drop_last()
    } else {
        line
    }
}

/// The lines of a text, as `str::lines` yields them: split at each `\n`,
/// a `\r` before it dropped, and no empty line after a final `\n`.
pub open spec fn lines(s: Seq<char>) -> Seq<Seq<char>> {
    let (done, current) = lines_fold(s);
    if current.len() > 0 {
        done.push(current)
    } else {
        done
    }
}

/// The lines of a text.
pub fn lines_of(v: &Vec<char>) -> (r: Vec<Vec<char>>)
    ensures
        views(r@) == lines(v@),
{
    let mut done: Vec<Vec<char>> = Vec::new();
    let mut current: Vec<char> = Vec::new();
    let mut i: usize = 0;
    while i < v.len()
        invariant
            i <= v.len(),
            (views(done@), current@) == lines_fold(v@.subrange(0, i as int)),
        decreases v.len() - i,
    {
        let c = v[i];
        assert(v@.subrange(0, i + 1).drop_last() =~= v@.subrange(0, i as int));
        if c == '\n' {
            let n = current.len();
            let line = if n > 0 && current[n - 1] == '\r' {
                slice(&current, 0, n - 1)
            } else {
                slice(&current, 0, n)
            };
            assert(line@ == without_cr(current@)) by {
                assert(current@.subrange(0, n as int) =~= current@);
            }
            let ghost before = views(done@);
            done.push(line);
            assert(views(done@) =~= before.push(line@));
            current = Vec::new();
        } else {
            current.push(c);
        }
        i += 1;
    }
    assert(v@.subrange(0, v.len() as int) =~= v@);
    if current.len() > 0 {
        let ghost before = views(done@);
        let ghost last = current@;
        done.push(current);
        assert(views(done@) =~= before.push(last));
    }
    done
}

/// The words of a text, as `str::split_whitespace` yields them, folded from
/// the left: the words finished so far, and the one still being read.
pub open spec fn words_fold(s: Seq<char>) -> (Seq<Seq<char>>, Seq<char>)
    decreases s.len(),
{
    if s.len() == 0 {
        (Seq::empty(), Seq::empty())
    } else {
        let (done, current) = words_fold(s.drop_last());
        if is_space(s.last()) {
            if current.len() > 0 {
                (done.push(current), Seq::empty())
            } else {
                (done, current)
            }
        } else {
            (done, current.push(s.last()))
        }
    }
}

/// The words of a text: the runs of characters between white space.
pub open spec fn words(s: Seq<char>) -> Seq<Seq<char>> {
    let (done, current) = words_fold(s);
    if current.len() > 0 {
        done.push(current)
    } else {
        done
    }
}

/// The words of a text.
pub fn words_of(v: &Vec<char>) -> (r: Vec<Vec<char>>)
    ensures
        views(r@) == words(v@),
{
    let mut done: Vec<Vec<char>> = Vec::new();
    let mut current: Vec<char> = Vec::new();
    let mut i: usize = 0;
    while i < v.len()
        invariant
            i <= v.len(),
            (views(done@), current@) == words_fold(v@.subrange(0, i as int)),
        decreases v.len() - i,
    {
        let c = v[i];
        assert(v@.subrange(0, i + 1).drop_last() =~= v@.subrange(0, i as int));
        if space(c) {
            if current.len() > 0 {
                let ghost before = views(done@);
                let ghost last = current@;
                done.push(current);
                assert(views(done@) =~= before.push(last));
                current = Vec::new();
            }
        } else {
            current.push(c);
        }
        i += 1;
    }
    assert(v@.subrange(0, v.len() as int) =~= v@);
    if current.len() > 0 {
        let ghost before = views(done@);
        let ghost last = current@;
        done.push(current);
        assert(views(done@) =~= before.push(last));
    }
    done
}

} // verus!

verus! {

/// The texts a list of strings holds, in order.
pub open spec fn strings(v: Seq<String>) -> Seq<Seq<char>> {
    v.map_values(|s: String| s@)
}

/// Appends a string to a list of them.
pub fn push_string(v: &mut Vec<String>, s: String)
    ensures
        strings(final(v)@) == strings(old(v)@).push(s@),
{
    let ghost before = strings(v@);
    v.push(s);
    assert(strings(v@) =~= before.push(s@));
}

/// A whole number written in decimal with a sign when it is negative, as
/// `to_string` writes it.
pub open spec fn signed_decimal(n: int) -> Seq<char> {
    if n < 0 {
        "-"@ + decimal((-n) as nat)
    } else {
        decimal(n as nat)
    }
}

/// A whole number written in decimal with a sign when it is negative.
pub fn signed_string(n: i64) -> (s: String)
    ensures
        s@ == signed_decimal(n as int),
{
    if n < 0 {
        let magnitude: u128 = (0i128 - n as i128) as u128;
        let mut s = String::from_str("-");
        s.append(decimal_string(magnitude).as_str());
        s
    } else {
        decimal_string(n as u128)
    }
}


/// The last place below `n` where `m` stands in `s`.
pub open spec fn last_below(s: Seq<char>, m: Seq<char>, n: nat) -> Option<int>
    decreases n,
{
    if n == 0 {
        None
    } else if occurs_at(s, m, n - 1) {
        Some(n - 1)
    } else {
        last_below(s, m, (n - 1) as nat)
    }
}

/// What `str::rsplit_once` answers: the text before the last appearance of
/// `m` and the text after it, or nothing when `m` does not appear.
pub open spec fn rsplit_once(s: Seq<char>, m: Seq<char>) -> Option<(Seq<char>, Seq<char>)> {
    match last_below(s, m, s.len() + 1) {
        Some(at) => Some((s.subrange(0, at), s.subrange(at + m.len(), s.len() as int))),
        None => None,
    }
}

/// A place `last_below` names is a place the marker stands, below the bound.
pub proof fn lemma_last_below(s: Seq<char>, m: Seq<char>, n: nat)
    ensures
        match last_below(s, m, n) {
            Some(at) => occurs_at(s, m, at) && at < n,
            None => true,
        },
    decreases n,
{
    if n > 0 && !occurs_at(s, m, n - 1) {
        lemma_last_below(s, m, (n - 1) as nat);
    }
}

/// Splits a text at the last appearance of a marker.
pub fn split_at_last(v: &Vec<char>, m: &Vec<char>) -> (r: Option<(Vec<char>, Vec<char>)>)
    ensures
        match r {
            Some((a, b)) => rsplit_once(v@, m@) == Some((a@, b@)),
            None => rsplit_once(v@, m@) is None,
        },
{
    if m.len() == 0 {
        proof {
            assert(occurs_at(v@, m@, v@.len() as int)) by {
                assert(v@.subrange(v@.len() as int, v@.len() as int) =~= m@);
            }
        }
        let b: Vec<char> = Vec::new();
        let a = crate::text::slice(v, 0, v.len());
        assert(a@ =~= v@.subrange(0, v@.len() as int));
        assert(b@ =~= v@.subrange(v@.len() as int, v@.len() as int));
        return Some((a, b));
    }
    let mut i: usize = v.len();
    assert(!occurs_at(v@, m@, v@.len() as int));
    loop
        invariant
            i <= v.len(),
            m@.len() > 0,
            last_below(v@, m@, (v@.len() + 1) as nat) == last_below(v@, m@, i as nat),
        decreases i,
    {
        if i == 0 {
            return None;
        }
        if matches_at(v, m, i - 1) {
            assert(i - 1 + m@.len() <= v@.len());
            let a = crate::text::slice(v, 0, i - 1);
            let b = crate::text::slice(v, i - 1 + m.len(), v.len());
            return Some((a, b));
        }
        i -= 1;
    }
}

/// Zeros in front of a number's digits until it is `width` long, as
/// `format!("{n:0width$}")` writes it.
pub open spec fn padded(n: nat, width: nat) -> Seq<char> {
    let digits = decimal(n);
    if digits.len() >= width {
        digits
    } else {
        Seq::new((width - digits.len()) as nat, |i: int| '0') + digits
    }
}

/// A number's digits with zeros in front until it is `width` long.
pub fn padded_chars(n: u128, width: usize) -> (r: Vec<char>)
    ensures
        r@ == padded(n as nat, width as nat),
{
    let digits = decimal_chars(n);
    let mut out: Vec<char> = Vec::new();
    let mut k: usize = digits.len();
    while k < width
        invariant
            digits.len() <= k,
            k <= width || k == digits.len(),
            out@ == Seq::new((k - digits.len()) as nat, |i: int| '0'),
        decreases width - k,
    {
        out.push('0');
        k += 1;
        assert(out@ =~= Seq::new((k - digits.len()) as nat, |i: int| '0'));
    }
    let ghost zeros = out@;
    let mut j: usize = 0;
    while j < digits.len()
        invariant
            j <= digits.len(),
            out@ == zeros + digits@.subrange(0, j as int),
        decreases digits.len() - j,
    {
        out.push(digits[j]);
        j += 1;
        assert(out@ =~= zeros + digits@.subrange(0, j as int));
    }
    assert(digits@.subrange(0, digits@.len() as int) =~= digits@);
    assert(out@ =~= padded(n as nat, width as nat)) by {
        if digits@.len() >= width {
            assert(zeros =~= Seq::<char>::empty());
        }
    }
    out
}

} // verus!

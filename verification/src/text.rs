//! Character-level meaning of the text operations the dialect is built from.

use vstd::prelude::*;

verus! {

/// A character with ASCII `A`-`Z` turned into `a`-`z` and everything else kept.
pub open spec fn lower_char(c: char) -> char {
    if 'A' <= c && c <= 'Z' {
        ((c as u32) + 32) as char
    } else {
        c
    }
}

/// Text with its ASCII letters in lower case.
pub open spec fn fold(s: Seq<char>) -> Seq<char> {
    s.map_values(|c: char| lower_char(c))
}

/// Whether two texts are the same word when the case of ASCII letters is ignored.
pub open spec fn same_word(a: Seq<char>, b: Seq<char>) -> bool {
    fold(a) == fold(b)
}

/// `str::eq_ignore_ascii_case`: true exactly when the two texts agree once `A`-`Z` is read
/// as `a`-`z` in both; characters outside ASCII have to be identical.
pub assume_specification[ str::eq_ignore_ascii_case ](s: &str, other: &str) -> (r: bool)
    ensures
        r == same_word(s@, other@),
;

/// `str::eq`: true exactly when the two texts hold the same characters in the same order.
pub assume_specification[ <str as PartialEq>::eq ](s: &str, other: &str) -> (r: bool)
    ensures
        r == (s@ == other@),
;

/// `String::push`: appends one character at the end.
pub assume_specification[ String::push ](s: &mut String, c: char)
    ensures
        final(s)@ == old(s)@.push(c),
;

/// Whether two texts are identical.
pub fn same(a: &str, b: &str) -> (r: bool)
    ensures
        r == (a@ == b@),
{
    str::eq(a, b)
}

/// The character of one decimal digit.
pub open spec fn digit(d: nat) -> char {
    (('0' as u32) + d) as char
}

/// A number in decimal, without leading zeros.
pub open spec fn dec(n: nat) -> Seq<char>
    decreases n,
{
    if n < 10 {
        seq![digit(n)]
    } else {
        dec(n / 10).push(digit(n % 10))
    }
}

/// A signed number in decimal, with a `-` in front of a negative one.
pub open spec fn dec_signed(n: int) -> Seq<char> {
    if n < 0 {
        seq!['-'] + dec((-n) as nat)
    } else {
        dec(n as nat)
    }
}

/// Appends a number in decimal.
pub fn push_dec(out: &mut String, n: u128)
    ensures
        final(out)@ == old(out)@ + dec(n as nat),
    decreases n,
{
    if n >= 10 {
        push_dec(out, n / 10);
    }
    let d: u8 = (n % 10) as u8;
    let c: char = (48u8 + d) as char;
    out.push(c);
    assert(out@ =~= old(out)@ + dec(n as nat));
}

/// Appends a signed number in decimal.
pub fn push_signed(out: &mut String, n: i128)
    ensures
        final(out)@ == old(out)@ + dec_signed(n as int),
{
    if n < 0 {
        out.push('-');
        push_dec(out, (-(n + 1)) as u128 + 1);
        assert(out@ =~= old(out)@ + dec_signed(n as int));
    } else {
        push_dec(out, n as u128);
    }
}

/// The view of an optional text.
pub open spec fn opt_text(o: Option<String>) -> Option<Seq<char>> {
    match o {
        Some(s) => Some(s@),
        None => None,
    }
}

/// The views of a list of values.
pub open spec fn views<T: View>(s: Seq<T>) -> Seq<T::V> {
    s.map_values(|x: T| x@)
}

/// Whether two optional texts are identical.
pub fn same_opt(a: &Option<String>, b: &Option<String>) -> (r: bool)
    ensures
        r == (opt_text(*a) == opt_text(*b)),
{
    match (a, b) {
        (Some(x), Some(y)) => same(x.as_str(), y.as_str()),
        (None, None) => true,
        _ => false,
    }
}

/// A text between two others.
pub fn wrapped(before: &str, s: &str, after: &str) -> (r: String)
    ensures
        r@ == before@ + s@ + after@,
{
    let mut out = str::to_owned(before);
    out.append(s);
    out.append(after);
    out
}

/// A database name, or the one that stands in where none was written.
pub open spec fn filled(d: Option<Seq<char>>, database: Seq<char>) -> Option<Seq<char>> {
    match d {
        Some(d) => Some(d),
        None => Some(database),
    }
}

/// Puts a database name where none was written.
pub fn fill(d: &mut Option<String>, database: &str)
    ensures
        opt_text(*final(d)) == filled(opt_text(*old(d)), database@),
{
    if d.is_none() {
        *d = Some(str::to_owned(database));
    }
}

/// A table with the database it was written in.
pub open spec fn qualified(database: Option<Seq<char>>, table: Seq<char>) -> Seq<char> {
    match database {
        Some(d) => d + "."@ + table,
        None => table,
    }
}

/// A table with the database it was written in.
pub fn qualify(database: &Option<String>, table: &str) -> (r: String)
    ensures
        r@ == qualified(opt_text(*database), table@),
{
    match database {
        Some(d) => wrapped(d.as_str(), ".", table),
        None => str::to_owned(table),
    }
}

/// A copy of a text that may be absent.
pub fn copy_opt(d: &Option<String>) -> (r: Option<String>)
    ensures
        opt_text(r) == opt_text(*d),
{
    match d {
        Some(s) => Some(s.clone()),
        None => None,
    }
}

/// A copy of a list.
pub fn copy_all<T: Clone + View>(v: &Vec<T>) -> (r: Vec<T>)
    requires
        forall|a: T, b: T| #[trigger] call_ensures(T::clone, (&a,), b) ==> b@ == a@,
    ensures
        views(r@) == views(v@),
{
    let mut out: Vec<T> = Vec::new();
    let mut k: usize = 0;
    while k < v.len()
        invariant
            k <= v@.len(),
            out@.len() == k,
            forall|a: T, b: T| #[trigger] call_ensures(T::clone, (&a,), b) ==> b@ == a@,
            forall|j: int| 0 <= j < k ==> (#[trigger] out@[j])@ == v@[j]@,
        decreases v.len() - k,
    {
        out.push(v[k].clone());
        k += 1;
    }
    assert(views(out@) =~= views(v@));
    out
}

/// A copy of a list of values that are their own views.
pub fn copy_plain<T: Copy>(v: &Vec<T>) -> (r: Vec<T>)
    ensures
        r@ == v@,
{
    let mut out: Vec<T> = Vec::new();
    let mut k: usize = 0;
    while k < v.len()
        invariant
            k <= v@.len(),
            out@ == v@.take(k as int),
        decreases v.len() - k,
    {
        out.push(v[k]);
        k += 1;
        assert(out@ =~= v@.take(k as int));
    }
    assert(v@.take(k as int) =~= v@);
    out
}

/// A copy of a value that may be absent.
pub fn copy_some<T: Clone + View>(v: &Option<T>) -> (r: Option<T>)
    requires
        forall|a: T, b: T| #[trigger] call_ensures(T::clone, (&a,), b) ==> b@ == a@,
    ensures
        r is Some == v is Some,
        r is Some ==> (r->0)@ == (v->0)@,
{
    match v {
        Some(x) => Some(x.clone()),
        None => None,
    }
}

/// A character Unicode calls white space.
pub open spec fn is_space(c: char) -> bool {
    ('\u{9}' <= c && c <= '\u{d}') || c == '\u{20}' || c == '\u{85}' || c == '\u{a0}' || c
        == '\u{1680}' || ('\u{2000}' <= c && c <= '\u{200a}') || c == '\u{2028}' || c
        == '\u{2029}' || c == '\u{202f}' || c == '\u{205f}' || c == '\u{3000}'
}

/// Text without the white space at its start.
pub open spec fn trimmed_start(s: Seq<char>) -> Seq<char>
    decreases s.len(),
{
    if s.len() > 0 && is_space(s[0]) {
        trimmed_start(s.drop_first())
    } else {
        s
    }
}

/// Text without the white space at its end.
pub open spec fn trimmed_end(s: Seq<char>) -> Seq<char>
    decreases s.len(),
{
    if s.len() > 0 && is_space(s.last()) {
        trimmed_end(s.drop_last())
    } else {
        s
    }
}

/// Text without the white space around it.
pub open spec fn trimmed(s: Seq<char>) -> Seq<char> {
    trimmed_end(trimmed_start(s))
}

/// `str::trim`: the text without leading and trailing characters of Unicode's `White_Space`.
pub assume_specification<'a>[ str::trim ](s: &'a str) -> (r: &'a str)
    ensures
        r@ == trimmed(s@),
;

/// The bytes a text is stored as.
pub open spec fn bytes(s: Seq<char>) -> Seq<u8> {
    vstd::utf8::encode_utf8(s)
}

/// Dictionary order of two byte strings: the first difference decides, and a proper prefix
/// comes first.
pub open spec fn bytes_before(a: Seq<u8>, b: Seq<u8>) -> bool
    decreases a.len(),
{
    if b.len() == 0 {
        false
    } else if a.len() == 0 {
        true
    } else if a[0] != b[0] {
        a[0] < b[0]
    } else {
        bytes_before(a.skip(1), b.skip(1))
    }
}

/// Nothing comes before itself.
pub proof fn lemma_bytes_before_irreflexive(a: Seq<u8>)
    ensures
        !bytes_before(a, a),
    decreases a.len(),
{
    if a.len() > 0 {
        lemma_bytes_before_irreflexive(a.skip(1));
    }
}

/// The order chains.
pub proof fn lemma_bytes_before_transitive(a: Seq<u8>, b: Seq<u8>, c: Seq<u8>)
    requires
        bytes_before(a, b),
        bytes_before(b, c),
    ensures
        bytes_before(a, c),
    decreases a.len(),
{
    if a.len() > 0 && b.len() > 0 && c.len() > 0 && a[0] == b[0] && b[0] == c[0] {
        lemma_bytes_before_transitive(a.skip(1), b.skip(1), c.skip(1));
    }
}

/// Two different byte strings are always in one order or the other.
pub proof fn lemma_bytes_before_total(a: Seq<u8>, b: Seq<u8>)
    ensures
        a == b || bytes_before(a, b) || bytes_before(b, a),
    decreases a.len(),
{
    if a.len() > 0 && b.len() > 0 && a[0] == b[0] {
        lemma_bytes_before_total(a.skip(1), b.skip(1));
        if a.skip(1) == b.skip(1) {
            assert forall|i: int| 0 <= i < a.len() implies a[i] == b[i] by {
                if i > 0 {
                    assert(a[i] == a.skip(1)[i - 1]);
                    assert(b[i] == b.skip(1)[i - 1]);
                }
            }
            assert(a.len() == a.skip(1).len() + 1);
            assert(a =~= b);
        }
    } else if a.len() == 0 && b.len() == 0 {
        assert(a =~= b);
    }
}

/// Two texts stored as the same bytes are the same text.
pub proof fn lemma_bytes_injective(a: Seq<char>, b: Seq<char>)
    requires
        bytes(a) == bytes(b),
    ensures
        a == b,
{
    vstd::utf8::encode_utf8_decode_utf8(a);
    vstd::utf8::encode_utf8_decode_utf8(b);
}

/// Whether one text sorts strictly before another, byte by byte.
pub fn precedes(a: &str, b: &str) -> (r: bool)
    ensures
        r == bytes_before(bytes(a@), bytes(b@)),
{
    let x = a.as_bytes();
    let y = b.as_bytes();
    let mut i: usize = 0;
    let ghost whole = bytes_before(x@, y@);
    proof {
        assert(x@.skip(0) =~= x@);
        assert(y@.skip(0) =~= y@);
    }
    while i < x.len() && i < y.len()
        invariant
            i <= x.len(),
            i <= y.len(),
            x@ == bytes(a@),
            y@ == bytes(b@),
            whole == bytes_before(bytes(a@), bytes(b@)),
            whole == bytes_before(x@.skip(i as int), y@.skip(i as int)),
        decreases x.len() - i,
    {
        proof {
            assert(x@.skip(i as int).skip(1) =~= x@.skip(i + 1));
            assert(y@.skip(i as int).skip(1) =~= y@.skip(i + 1));
        }
        if x[i] != y[i] {
            return x[i] < y[i];
        }
        i += 1;
    }
    i < y.len()
}

/// Texts one after another, with something between each two.
pub open spec fn joined(parts: Seq<Seq<char>>, between: Seq<char>) -> Seq<char>
    decreases parts.len(),
{
    if parts.len() == 0 {
        Seq::empty()
    } else if parts.len() == 1 {
        parts[0]
    } else {
        joined(parts.drop_last(), between) + between + parts.last()
    }
}

/// Texts one after another, with something between each two.
pub fn join(parts: &Vec<String>, between: &str) -> (r: String)
    ensures
        r@ == joined(views(parts@), between@),
{
    let mut out = String::new();
    let ghost all = views(parts@);
    let mut k: usize = 0;
    assert(all.take(0) =~= Seq::<Seq<char>>::empty());
    assert(out@ =~= Seq::<char>::empty());
    while k < parts.len()
        invariant
            k <= parts@.len(),
            all == views(parts@),
            out@ == joined(all.take(k as int), between@),
        decreases parts.len() - k,
    {
        let ghost before = out@;
        if k > 0 {
            out.append(between);
        }
        out.append(parts[k].as_str());
        proof {
            let now = all.take(k + 1);
            assert(now.drop_last() =~= all.take(k as int));
            assert(now.last() == parts@[k as int]@);
            if k == 0 {
                assert(now[0] == parts@[0]@);
                assert(out@ =~= parts@[0]@);
            } else {
                assert(out@ =~= before + between@ + parts@[k as int]@);
            }
        }
        k += 1;
    }
    assert(all.take(k as int) =~= all);
    out
}

/// Where the first of a character is, from a position on.
pub open spec fn char_at(s: Seq<char>, c: char, k: int) -> Option<int>
    decreases s.len() - k,
{
    if k < 0 || k >= s.len() {
        None
    } else if s[k] == c {
        Some(k)
    } else {
        char_at(s, c, k + 1)
    }
}

/// Where the first of a character is, from a position on.
pub fn find_char(s: &str, c: char, start: usize) -> (r: Option<usize>)
    ensures
        match r {
            Some(k) => char_at(s@, c, start as int) == Some(k as int) && start <= k < s@.len(),
            None => char_at(s@, c, start as int) is None,
        },
{
    let n = s.unicode_len();
    let mut k: usize = start;
    while k < n
        invariant
            n == s@.len(),
            start <= k,
            k <= n || k == start,
            char_at(s@, c, start as int) == char_at(s@, c, k as int),
        decreases n - k,
    {
        if s.get_char(k) == c {
            return Some(k);
        }
        k += 1;
    }
    None
}

} // verus!

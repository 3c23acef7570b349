//! Character and string helpers: whitespace classification, trimming,
//! splitting a configuration string at its first whitespace run, joining
//! string sequences, and lexicographic comparison of strings.
//!
//! These are the small text operations the configuration-string grammar and
//! the output rendering are built from, each with an exact specification.

use vstd::prelude::*;

verus! {

/// The Unicode `White_Space` characters, the set that `char::is_whitespace`
/// accepts.
pub open spec fn is_space_spec(c: char) -> bool {
    ||| c == ' '
    ||| c == '\t'
    ||| c == '\n'
    ||| c == '\u{0B}'
    ||| c == '\u{0C}'
    ||| c == '\r'
    ||| c == '\u{85}'
    ||| c == '\u{A0}'
    ||| c == '\u{1680}'
    ||| c == '\u{2000}'
    ||| c == '\u{2001}'
    ||| c == '\u{2002}'
    ||| c == '\u{2003}'
    ||| c == '\u{2004}'
    ||| c == '\u{2005}'
    ||| c == '\u{2006}'
    ||| c == '\u{2007}'
    ||| c == '\u{2008}'
    ||| c == '\u{2009}'
    ||| c == '\u{200A}'
    ||| c == '\u{2028}'
    ||| c == '\u{2029}'
    ||| c == '\u{202F}'
    ||| c == '\u{205F}'
    ||| c == '\u{3000}'
}

/// Decides whitespace exactly as [`is_space_spec`] describes it.
pub fn is_space(c: char) -> (r: bool)
    ensures
        r == is_space_spec(c),
{
    c == ' ' || c == '\t' || c == '\n' || c == '\u{0B}' || c == '\u{0C}' || c == '\r'
        || c == '\u{85}' || c == '\u{A0}' || c == '\u{1680}' || c == '\u{2000}' || c == '\u{2001}'
        || c == '\u{2002}' || c == '\u{2003}' || c == '\u{2004}' || c == '\u{2005}'
        || c == '\u{2006}' || c == '\u{2007}' || c == '\u{2008}' || c == '\u{2009}'
        || c == '\u{200A}' || c == '\u{2028}' || c == '\u{2029}' || c == '\u{202F}'
        || c == '\u{205F}' || c == '\u{3000}'
}

/// Whether some character of `s` is whitespace.
pub open spec fn has_space(s: Seq<char>) -> bool {
    exists|i: int| 0 <= i < s.len() && is_space_spec(#[trigger] s[i])
}

/// Index of the first whitespace character of `s` (meaningful only when
/// [`has_space`] holds).
pub open spec fn first_space(s: Seq<char>) -> int
    decreases s.len(),
{
    if s.len() == 0 {
        0
    } else if is_space_spec(s[0]) {
        0
    } else {
        1 + first_space(s.drop_first())
    }
}

pub proof fn lemma_first_space(s: Seq<char>, i: int)
    requires
        0 <= i < s.len(),
        is_space_spec(s[i]),
        forall|j: int| 0 <= j < i ==> !is_space_spec(s[j]),
    ensures
        has_space(s),
        first_space(s) == i,
    decreases i,
{
    assert(is_space_spec(s[i]));
    if i == 0 {
    } else {
        assert(!is_space_spec(s[0]));
        lemma_first_space(s.drop_first(), i - 1);
    }
}

/// `s` with leading whitespace removed.
pub open spec fn trim_start_spec(s: Seq<char>) -> Seq<char>
    decreases s.len(),
{
    if s.len() > 0 && is_space_spec(s[0]) {
        trim_start_spec(s.drop_first())
    } else {
        s
    }
}

/// `s` with trailing whitespace removed.
pub open spec fn trim_end_spec(s: Seq<char>) -> Seq<char>
    decreases s.len(),
{
    if s.len() > 0 && is_space_spec(s[s.len() - 1]) {
        trim_end_spec(s.drop_last())
    } else {
        s
    }
}

/// `s` with leading and trailing whitespace removed, as `str::trim` leaves it.
pub open spec fn trim_spec(s: Seq<char>) -> Seq<char> {
    trim_end_spec(trim_start_spec(s))
}

pub proof fn lemma_trim_start(s: Seq<char>, a: int)
    requires
        0 <= a <= s.len(),
        forall|j: int| 0 <= j < a ==> is_space_spec(#[trigger] s[j]),
        a < s.len() ==> !is_space_spec(s[a]),
    ensures
        trim_start_spec(s) == s.subrange(a, s.len() as int),
    decreases a,
{
    if a == 0 {
        assert(trim_start_spec(s) =~= s.subrange(0, s.len() as int));
    } else {
        assert(is_space_spec(s[0]));
        lemma_trim_start(s.drop_first(), a - 1);
        assert(s.drop_first().subrange(a - 1, s.drop_first().len() as int) =~= s.subrange(
            a,
            s.len() as int,
        ));
    }
}

pub proof fn lemma_trim_end(s: Seq<char>, b: int)
    requires
        -1 <= b < s.len(),
        forall|k: int| b < k < s.len() ==> is_space_spec(#[trigger] s[k]),
        b >= 0 ==> !is_space_spec(s[b]),
    ensures
        trim_end_spec(s) == s.subrange(0, b + 1),
    decreases s.len(),
{
    if b == s.len() - 1 {
        assert(trim_end_spec(s) =~= s.subrange(0, b + 1));
    } else {
        assert(is_space_spec(s[s.len() - 1]));
        lemma_trim_end(s.drop_last(), b);
        assert(s.drop_last().subrange(0, b + 1) =~= s.subrange(0, b + 1));
    }
}

/// Trims exactly as [`trim_spec`] describes.
pub fn trim(s: &str) -> (r: String)
    ensures
        r@ == trim_spec(s@),
{
    let n = s.unicode_len();
    let mut a: usize = 0;
    while a < n && is_space(s.get_char(a))
        invariant
            0 <= a <= n,
            n == s@.len(),
            forall|j: int| 0 <= j < a ==> is_space_spec(#[trigger] s@[j]),
        decreases n - a,
    {
        a = a + 1;
    }
    proof {
        lemma_trim_start(s@, a as int);
    }
    if a == n {
        let r = String::new();
        proof {
            assert(trim_spec(s@) =~= Seq::<char>::empty());
        }
        return r;
    }
    let mut b: usize = n;
    while b > a && is_space(s.get_char(b - 1))
        invariant
            a < n,
            a <= b <= n,
            n == s@.len(),
            !is_space_spec(s@[a as int]),
            forall|k: int| b <= k < n ==> is_space_spec(#[trigger] s@[k]),
        decreases b,
    {
        b = b - 1;
    }
    assert(b > a);
    assert(!is_space_spec(s@[b - 1]));
    let r = String::from_str(s.substring_char(a, b));
    proof {
        let t = s@.subrange(a as int, s@.len() as int);
        lemma_trim_end(t, b - a - 1);
        assert(t.subrange(0, b - a) =~= s@.subrange(a as int, b as int));
    }
    r
}

/// Splitting a configuration string at its first whitespace run: the part
/// before the first whitespace character, and the trimmed remainder.  `None`
/// when the string holds no whitespace at all.
pub open spec fn split2_spec(s: Seq<char>) -> Option<(Seq<char>, Seq<char>)> {
    if has_space(s) {
        let i = first_space(s);
        Some((s.subrange(0, i), trim_spec(s.subrange(i + 1, s.len() as int))))
    } else {
        None
    }
}

/// Splits `s` at its first whitespace character into a name and a trimmed
/// body, as `s.splitn(2, char::is_whitespace)` followed by trimming would do.
pub fn split2(s: &str) -> (r: Option<(String, String)>)
    ensures
        r is Some <==> has_space(s@),
        r matches Some(p) ==> split2_spec(s@) == Some((p.0@, p.1@)),
{
    let n = s.unicode_len();
    let mut i: usize = 0;
    while i < n
        invariant
            0 <= i <= n,
            n == s@.len(),
            forall|j: int| 0 <= j < i ==> !is_space_spec(#[trigger] s@[j]),
        decreases n - i,
    {
        if is_space(s.get_char(i)) {
            proof {
                lemma_first_space(s@, i as int);
            }
            let head = String::from_str(s.substring_char(0, i));
            let tail = trim(s.substring_char(i + 1, n));
            return Some((head, tail));
        }
        i = i + 1;
    }
    assert(!has_space(s@));
    None
}

/// Lexicographic (code-point) order on character sequences, the order in
/// which `str` values compare.
pub open spec fn lex_lt(a: Seq<char>, b: Seq<char>) -> bool
    decreases a.len(),
{
    if b.len() == 0 {
        false
    } else if a.len() == 0 {
        true
    } else if (a[0] as u32) < (b[0] as u32) {
        true
    } else if (a[0] as u32) > (b[0] as u32) {
        false
    } else {
        lex_lt(a.drop_first(), b.drop_first())
    }
}

pub proof fn lemma_lex_lt_irrefl(a: Seq<char>)
    ensures
        !lex_lt(a, a),
    decreases a.len(),
{
    if a.len() > 0 {
        lemma_lex_lt_irrefl(a.drop_first());
    }
}

pub proof fn lemma_lex_lt_trans(a: Seq<char>, b: Seq<char>, c: Seq<char>)
    requires
        lex_lt(a, b),
        lex_lt(b, c),
    ensures
        lex_lt(a, c),
    decreases a.len(),
{
    if a.len() > 0 && b.len() > 0 && c.len() > 0 && (a[0] as u32) == (b[0] as u32) && (b[0] as u32)
        == (c[0] as u32) {
        lemma_lex_lt_trans(a.drop_first(), b.drop_first(), c.drop_first());
    }
}

/// Two distinct sequences are strictly ordered one way or the other.
pub proof fn lemma_lex_lt_connected(a: Seq<char>, b: Seq<char>)
    requires
        a != b,
    ensures
        lex_lt(a, b) || lex_lt(b, a),
    decreases a.len(),
{
    if a.len() > 0 && b.len() > 0 {
        if a[0] == b[0] {
            assert((a[0] as u32) == (b[0] as u32));
            if a.drop_first() == b.drop_first() {
                assert(a =~= seq![a[0]] + a.drop_first());
                assert(b =~= seq![b[0]] + b.drop_first());
                assert(false);
            }
            lemma_lex_lt_connected(a.drop_first(), b.drop_first());
        } else {
            assert((a[0] as u32) != (b[0] as u32)) by {
                if (a[0] as u32) == (b[0] as u32) {
                    vstd::utf8::char_u32_cast(a[0], a[0] as u32);
                    vstd::utf8::char_u32_cast(b[0], b[0] as u32);
                }
            }
        }
    } else if a.len() == 0 && b.len() == 0 {
        assert(a =~= b);
    }
}

pub proof fn lemma_lex_lt_asym(a: Seq<char>, b: Seq<char>)
    requires
        lex_lt(a, b),
    ensures
        !lex_lt(b, a),
{
    if lex_lt(b, a) {
        lemma_lex_lt_trans(a, b, a);
        lemma_lex_lt_irrefl(a);
    }
}

proof fn lemma_lex_lt_skip(a: Seq<char>, b: Seq<char>, i: int)
    requires
        0 <= i <= a.len(),
        i <= b.len(),
        forall|j: int| 0 <= j < i ==> a[j] == b[j],
    ensures
        lex_lt(a, b) == lex_lt(a.skip(i), b.skip(i)),
    decreases i,
{
    if i > 0 {
        assert(a[0] == b[0]);
        assert((a[0] as u32) == (b[0] as u32));
        lemma_lex_lt_skip(a.drop_first(), b.drop_first(), i - 1);
        assert(a.drop_first().skip(i - 1) =~= a.skip(i));
        assert(b.drop_first().skip(i - 1) =~= b.skip(i));
    } else {
        assert(a.skip(0) =~= a);
        assert(b.skip(0) =~= b);
    }
}

/// Compares two strings in the order of [`lex_lt`].
pub fn str_lt(a: &str, b: &str) -> (r: bool)
    ensures
        r == lex_lt(a@, b@),
{
    let an = a.unicode_len();
    let bn = b.unicode_len();
    let mut i: usize = 0;
    while i < an && i < bn
        invariant
            0 <= i <= an,
            i <= bn,
            an == a@.len(),
            bn == b@.len(),
            forall|j: int| 0 <= j < i ==> a@[j] == b@[j],
        decreases an - i,
    {
        let ca = a.get_char(i);
        let cb = b.get_char(i);
        if ca != cb {
            proof {
                lemma_lex_lt_skip(a@, b@, i as int);
                assert(a@.skip(i as int)[0] == ca);
                assert(b@.skip(i as int)[0] == cb);
                if (ca as u32) == (cb as u32) {
                    vstd::utf8::char_u32_cast(ca, ca as u32);
                    vstd::utf8::char_u32_cast(cb, cb as u32);
                    assert(ca == cb);
                }
            }
            return (ca as u32) < (cb as u32);
        }
        i = i + 1;
    }
    proof {
        lemma_lex_lt_skip(a@, b@, i as int);
    }
    an < bn
}

/// The parts of `parts`, joined with the separator `sep` between neighbours.
pub open spec fn join_with(sep: Seq<char>, parts: Seq<Seq<char>>) -> Seq<char>
    decreases parts.len(),
{
    if parts.len() == 0 {
        Seq::empty()
    } else if parts.len() == 1 {
        parts[0]
    } else {
        parts[0] + sep + join_with(sep, parts.drop_first())
    }
}

pub proof fn lemma_join_with_push(sep: Seq<char>, parts: Seq<Seq<char>>, last: Seq<char>)
    ensures
        join_with(sep, parts.push(last)) == if parts.len() == 0 {
            last
        } else {
            join_with(sep, parts) + sep + last
        },
    decreases parts.len(),
{
    if parts.len() == 0 {
        assert(parts.push(last)[0] == last);
    } else if parts.len() == 1 {
        assert(parts.push(last).drop_first() =~= seq![last]);
        assert(join_with(sep, seq![last]) == last);
        assert(parts.push(last)[0] == parts[0]);
        assert(join_with(sep, parts.push(last)) =~= parts[0] + sep + last);
    } else {
        lemma_join_with_push(sep, parts.drop_first(), last);
        assert(parts.push(last).drop_first() =~= parts.drop_first().push(last));
        assert(join_with(sep, parts.push(last)) =~= join_with(sep, parts) + sep + last);
    }
}

/// Joins the strings of `parts` with `sep` between neighbours, exactly as
/// [`join_with`] describes.
pub fn join_strings(parts: &Vec<String>, sep: &str) -> (r: String)
    ensures
        r@ == join_with(sep@, parts.deep_view()),
{
    let ghost dv = parts.deep_view();
    let mut r = String::new();
    let mut i: usize = 0;
    while i < parts.len()
        invariant
            0 <= i <= parts.len(),
            dv == parts.deep_view(),
            dv.len() == parts.len(),
            forall|j: int| 0 <= j < parts.len() ==> dv[j] == #[trigger] parts[j]@,
            r@ == join_with(sep@, dv.take(i as int)),
        decreases parts.len() - i,
    {
        if i > 0 {
            r.append(sep);
        }
        r.append(parts[i].as_str());
        proof {
            lemma_join_with_push(sep@, dv.take(i as int), dv[i as int]);
            assert(dv.take(i as int).push(dv[i as int]) =~= dv.take(i + 1 as int));
        }
        i = i + 1;
    }
    proof {
        assert(dv.take(parts.len() as int) =~= dv);
    }
    r
}

} // verus!

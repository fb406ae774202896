use vstd::prelude::*;
use vstd::string::StringExecFns;

verus! {

// ---------------------------------------------------------------------------
// Calls into std's text functions.
// ---------------------------------------------------------------------------

/// What `str::to_lowercase` returns for a string: its Unicode lowercase form.
pub uninterp spec fn lowercase(s: Seq<char>) -> Seq<char>;

/// What `str::to_uppercase` returns for a string: its Unicode uppercase form.
pub uninterp spec fn uppercase(s: Seq<char>) -> Seq<char>;

/// Whether `char::is_alphanumeric` holds: Unicode Alphabetic or Numeric.
pub uninterp spec fn is_alphanumeric_char(c: char) -> bool;

/// Whether `char::is_whitespace` holds: the character has the Unicode
/// White_Space property, which 25 code points have.
pub open spec fn is_whitespace_char(c: char) -> bool {
    ||| '\u{9}' <= c <= '\u{d}'
    ||| c == ' '
    ||| c == '\u{85}'
    ||| c == '\u{a0}'
    ||| c == '\u{1680}'
    ||| '\u{2000}' <= c <= '\u{200a}'
    ||| c == '\u{2028}'
    ||| c == '\u{2029}'
    ||| c == '\u{202f}'
    ||| c == '\u{205f}'
    ||| c == '\u{3000}'
}

/// Text made of ASCII characters only.
pub open spec fn is_ascii_text(s: Seq<char>) -> bool {
    forall|i: int| 0 <= i < s.len() ==> (#[trigger] s[i] as int) < 128
}

/// 'a' to 'z' mapped to 'A' to 'Z'; every other character unchanged.
pub open spec fn ascii_upper_char(c: char) -> char {
    if 'a' <= c <= 'z' {
        ((c as int) - 32) as char
    } else {
        c
    }
}

/// 'A' to 'Z' mapped to 'a' to 'z'; every other character unchanged.
pub open spec fn ascii_lower_char(c: char) -> char {
    if 'A' <= c <= 'Z' {
        ((c as int) + 32) as char
    } else {
        c
    }
}

/// Each character of `s` through `ascii_upper_char`.
pub open spec fn ascii_upper(s: Seq<char>) -> Seq<char> {
    s.map_values(|c: char| ascii_upper_char(c))
}

/// Each character of `s` through `ascii_lower_char`.
pub open spec fn ascii_lower(s: Seq<char>) -> Seq<char> {
    s.map_values(|c: char| ascii_lower_char(c))
}

/// Calls `str::to_lowercase`; the result is the named lowercase form of `s`.
/// Of ASCII text std's documentation gives it exactly: the letters 'A' to
/// 'Z' become 'a' to 'z' and the other characters stay.
#[verifier::external_body]
pub(crate) fn to_lowercase(s: &str) -> (r: String)
    ensures
        r@ == lowercase(s@),
        is_ascii_text(s@) ==> r@ == ascii_lower(s@),
{
    s.to_lowercase()
}

/// The upper-case form of one character as `str::to_uppercase` gives it:
/// for an ASCII character its ASCII upper case, for another the named
/// upper-case form of that character alone.
pub open spec fn upper_piece(c: char) -> Seq<char> {
    if (c as int) < 128 {
        seq![ascii_upper_char(c)]
    } else {
        uppercase(seq![c])
    }
}

/// Each character of `s` upper-cased on its own, the pieces joined in order.
pub open spec fn upper_each(s: Seq<char>) -> Seq<char> {
    s.map_values(|c: char| upper_piece(c)).flatten()
}

/// Calls `str::to_uppercase`; the result is the named uppercase form of `s`.
/// std documents the upper-case mapping as unconditional: each character is
/// mapped on its own (`char::to_uppercase`, one or more characters), with
/// no rule that looks at its neighbours, and the pieces are joined in
/// order. Of ASCII characters it gives the mapping exactly: 'a' to 'z'
/// become 'A' to 'Z' and the others stay.
#[verifier::external_body]
pub(crate) fn to_uppercase(s: &str) -> (r: String)
    ensures
        r@ == uppercase(s@),
        r@ == upper_each(s@),
        is_ascii_text(s@) ==> r@ == ascii_upper(s@),
{
    s.to_uppercase()
}

/// Lower-casing the ASCII letters of a text first changes nothing of its
/// upper-case form: each character is upper-cased on its own, and an ASCII
/// letter upper-cases to the same letter in either case.
pub proof fn lemma_upper_each_of_ascii_lower(s: Seq<char>)
    ensures
        upper_each(ascii_lower(s)) == upper_each(s),
{
    let a = ascii_lower(s).map_values(|c: char| upper_piece(c));
    let b = s.map_values(|c: char| upper_piece(c));
    assert forall|i: int| 0 <= i < b.len() implies #[trigger] a[i] == b[i] by {
        let c = s[i];
        if 'A' <= c <= 'Z' {
            let d = ascii_lower_char(c);
            assert((d as int) == (c as int) + 32);
            assert('a' <= d <= 'z');
            assert((ascii_upper_char(d) as int) == (c as int));
        }
    }
    assert(a =~= b);
}

/// An ASCII letter or digit.
pub open spec fn is_ascii_alnum(c: char) -> bool {
    ||| 'a' <= c <= 'z'
    ||| 'A' <= c <= 'Z'
    ||| '0' <= c <= '9'
}

/// Whether `char::is_alphanumeric` holds of `c`: for an ASCII character,
/// whether it is a letter or a digit; for another, the named property.
pub open spec fn alphanumeric(c: char) -> bool {
    if (c as int) < 128 {
        is_ascii_alnum(c)
    } else {
        is_alphanumeric_char(c)
    }
}

/// Calls `char::is_alphanumeric`. Of an ASCII character std's documentation
/// gives it exactly: true for the letters and digits, false for the others.
#[verifier::external_body]
pub(crate) fn char_is_alphanumeric(c: char) -> (r: bool)
    ensures
        r == is_alphanumeric_char(c),
        r == alphanumeric(c),
{
    c.is_alphanumeric()
}

/// Whether `c` is whitespace, as `char::is_whitespace` decides it.
pub(crate) fn char_is_whitespace(c: char) -> (r: bool)
    ensures
        r == is_whitespace_char(c),
{
    ('\u{9}' <= c && c <= '\u{d}') || c == ' ' || c == '\u{85}' || c == '\u{a0}' || c == '\u{1680}' || ('\u{2000}'
        <= c && c <= '\u{200a}') || c == '\u{2028}' || c == '\u{2029}' || c == '\u{202f}' || c == '\u{205f}' || c
        == '\u{3000}'
}

/// Calls `String::push`, which appends one character.
#[verifier::external_body]
fn push_char(s: &mut String, c: char)
    ensures
        final(s)@ == old(s)@.push(c),
{
    s.push(c);
}

// ---------------------------------------------------------------------------
// Characters and strings.
// ---------------------------------------------------------------------------

/// The characters of a string slice, in order.
pub fn chars_of(s: &str) -> (r: Vec<char>)
    ensures
        r@ == s@,
{
    let mut r: Vec<char> = Vec::new();
    for c in it: s.chars()
        invariant
            r@ == it.seq().take(it.index()),
            it.seq() == s@,
    {
        r.push(c);
    }
    r
}

/// The string of the characters `v[from..to]`.
pub fn string_of_range(v: &Vec<char>, from: usize, to: usize) -> (r: String)
    requires
        from <= to <= v@.len(),
    ensures
        r@ == v@.subrange(from as int, to as int),
{
    let mut r = String::new();
    let mut i = from;
    while i < to
        invariant
            from <= i <= to <= v@.len(),
            r@ == v@.subrange(from as int, i as int),
        decreases to - i,
    {
        push_char(&mut r, v[i]);
        proof {
            assert(v@.subrange(from as int, i + 1) == v@.subrange(from as int, i as int).push(v@[i as int]));
        }
        i += 1;
    }
    r
}

/// The string of all the characters of `v`.
pub fn string_of(v: &Vec<char>) -> (r: String)
    ensures
        r@ == v@,
{
    let r = string_of_range(v, 0, v.len());
    proof {
        assert(v@.subrange(0, v@.len() as int) == v@);
    }
    r
}

/// `a` followed by `b`.
pub fn concat(a: &str, b: &str) -> (r: String)
    ensures
        r@ == a@ + b@,
{
    let mut r = String::from_str(a);
    r.append(b);
    r
}

pub open spec fn is_ascii_digit(c: char) -> bool {
    '0' <= c <= '9'
}

/// `needle` occurs in `hay` at position `i`.
pub open spec fn occurs_at(hay: Seq<char>, needle: Seq<char>, i: int) -> bool {
    0 <= i && i + needle.len() <= hay.len() && hay.subrange(i, i + needle.len()) == needle
}

/// `needle` occurs somewhere in `hay`.
pub open spec fn contains(hay: Seq<char>, needle: Seq<char>) -> bool {
    exists|i: int| #[trigger] occurs_at(hay, needle, i)
}

pub open spec fn starts_with(s: Seq<char>, prefix: Seq<char>) -> bool {
    prefix.len() <= s.len() && s.take(prefix.len() as int) == prefix
}

pub open spec fn ends_with(s: Seq<char>, suffix: Seq<char>) -> bool {
    suffix.len() <= s.len() && s.skip(s.len() - suffix.len()) == suffix
}

fn occurs_at_exec(hay: &Vec<char>, needle: &Vec<char>, i: usize) -> (r: bool)
    requires
        i + needle@.len() <= hay@.len(),
    ensures
        r == occurs_at(hay@, needle@, i as int),
{
    let hl = hay.len();
    let mut j: usize = 0;
    while j < needle.len()
        invariant
            i + needle@.len() <= hay@.len(),
            hl == hay@.len(),
            j <= needle@.len(),
            forall|j2: int| 0 <= j2 < j ==> hay@[i + j2] == #[trigger] needle@[j2],
        decreases needle@.len() - j,
    {
        if hay[i + j] != needle[j] {
            proof {
                assert(hay@.subrange(i as int, i + needle@.len())[j as int] != needle@[j as int]);
            }
            return false;
        }
        j += 1;
    }
    proof {
        assert(hay@.subrange(i as int, i + needle@.len()) =~= needle@);
    }
    true
}

/// Whether `needle` occurs in `hay`.
pub fn chars_contain(hay: &Vec<char>, needle: &Vec<char>) -> (r: bool)
    ensures
        r == contains(hay@, needle@),
{
    if needle.len() > hay.len() {
        proof {
            assert forall|i: int| !#[trigger] occurs_at(hay@, needle@, i) by {
                assert(needle@.len() > hay@.len());
            }
        }
        return false;
    }
    let last = hay.len() - needle.len();
    let mut i: usize = 0;
    loop
        invariant_except_break
            i <= last,
            last == hay@.len() - needle@.len(),
            needle@.len() <= hay@.len(),
            forall|i2: int| 0 <= i2 < i ==> !#[trigger] occurs_at(hay@, needle@, i2),
        ensures
            last == hay@.len() - needle@.len(),
            forall|i2: int| 0 <= i2 <= last ==> !#[trigger] occurs_at(hay@, needle@, i2),
        decreases last - i,
    {
        if occurs_at_exec(hay, needle, i) {
            return true;
        }
        if i == last {
            break;
        }
        i += 1;
    }
    proof {
        assert forall|i2: int| !#[trigger] occurs_at(hay@, needle@, i2) by {
            if 0 <= i2 <= last {
            }
        }
    }
    false
}

/// Whether `needle` occurs in `hay`.
pub fn str_contains(hay: &str, needle: &str) -> (r: bool)
    ensures
        r == contains(hay@, needle@),
{
    let h = chars_of(hay);
    let n = chars_of(needle);
    chars_contain(&h, &n)
}

/// Whether `s` begins with `prefix`.
pub fn chars_start_with(s: &Vec<char>, prefix: &Vec<char>) -> (r: bool)
    ensures
        r == starts_with(s@, prefix@),
{
    if prefix.len() > s.len() {
        return false;
    }
    let r = occurs_at_exec(s, prefix, 0);
    proof {
        assert(s@.subrange(0, prefix@.len() as int) == s@.take(prefix@.len() as int));
    }
    r
}

/// Whether `s` ends with `suffix`.
pub fn chars_end_with(s: &Vec<char>, suffix: &Vec<char>) -> (r: bool)
    ensures
        r == ends_with(s@, suffix@),
{
    if suffix.len() > s.len() {
        return false;
    }
    let r = occurs_at_exec(s, suffix, s.len() - suffix.len());
    proof {
        assert(s@.subrange(s@.len() - suffix@.len(), s@.len() as int) == s@.skip(s@.len() - suffix@.len()));
    }
    r
}

/// Whether `s` begins with `prefix`.
pub fn str_starts_with(s: &str, prefix: &str) -> (r: bool)
    ensures
        r == starts_with(s@, prefix@),
{
    chars_start_with(&chars_of(s), &chars_of(prefix))
}

/// Whether `s` ends with `suffix`.
pub fn str_ends_with(s: &str, suffix: &str) -> (r: bool)
    ensures
        r == ends_with(s@, suffix@),
{
    chars_end_with(&chars_of(s), &chars_of(suffix))
}

/// `s` with every trailing repetition of `suffix` removed, as
/// `str::trim_end_matches` does with a string pattern.
pub open spec fn trim_suffix(s: Seq<char>, suffix: Seq<char>) -> Seq<char>
    decreases s.len(),
{
    if suffix.len() > 0 && ends_with(s, suffix) {
        trim_suffix(s.take(s.len() - suffix.len()), suffix)
    } else {
        s
    }
}

/// `s` with every leading repetition of `prefix` removed, as
/// `str::trim_start_matches` does with a string pattern.
pub open spec fn trim_prefix(s: Seq<char>, prefix: Seq<char>) -> Seq<char>
    decreases s.len(),
{
    if prefix.len() > 0 && starts_with(s, prefix) {
        trim_prefix(s.skip(prefix.len() as int), prefix)
    } else {
        s
    }
}

/// Removes every trailing repetition of `suffix`.
pub fn str_trim_suffix(s: &str, suffix: &str) -> (r: String)
    ensures
        r@ == trim_suffix(s@, suffix@),
{
    let cs = chars_of(s);
    let suf = chars_of(suffix);
    let mut end = cs.len();
    proof {
        assert(cs@.take(cs@.len() as int) == cs@);
    }
    if suf.len() > 0 {
        loop
            invariant
                end <= cs@.len(),
                suf@.len() > 0,
                trim_suffix(cs@, suf@) == trim_suffix(cs@.take(end as int), suf@),
            ensures
                end <= cs@.len(),
                trim_suffix(cs@, suf@) == cs@.take(end as int),
            decreases end,
        {
            if suf.len() > end {
                proof {
                    let t = cs@.take(end as int);
                    assert(!ends_with(t, suf@));
                    assert(trim_suffix(t, suf@) == t);
                }
                break;
            }
            let at = end - suf.len();
            if !occurs_at_exec(&cs, &suf, at) {
                proof {
                    let t = cs@.take(end as int);
                    assert(t.subrange(at as int, end as int) == cs@.subrange(at as int, end as int));
                    assert(t.skip(t.len() - suf@.len()) == t.subrange(at as int, end as int));
                    assert(!ends_with(t, suf@));
                    assert(trim_suffix(t, suf@) == t);
                }
                break;
            }
            proof {
                let t = cs@.take(end as int);
                assert(t.skip(t.len() - suf@.len()) == cs@.subrange(at as int, end as int));
                assert(t.take(t.len() - suf@.len()) == cs@.take(at as int));
            }
            end = at;
        }
    }
    let r = string_of_range(&cs, 0, end);
    proof {
        assert(cs@.subrange(0, end as int) == cs@.take(end as int));
    }
    r
}

/// Removes every leading repetition of `prefix`.
pub fn str_trim_prefix(s: &str, prefix: &str) -> (r: String)
    ensures
        r@ == trim_prefix(s@, prefix@),
{
    let cs = chars_of(s);
    let pre = chars_of(prefix);
    let mut start: usize = 0;
    proof {
        assert(cs@.skip(0) == cs@);
    }
    if pre.len() > 0 {
        loop
            invariant
                start <= cs@.len(),
                pre@.len() > 0,
                trim_prefix(cs@, pre@) == trim_prefix(cs@.skip(start as int), pre@),
            ensures
                start <= cs@.len(),
                trim_prefix(cs@, pre@) == cs@.skip(start as int),
            decreases cs@.len() - start,
        {
            if pre.len() > cs.len() - start {
                proof {
                    let t = cs@.skip(start as int);
                    assert(!starts_with(t, pre@));
                    assert(trim_prefix(t, pre@) == t);
                }
                break;
            }
            if !occurs_at_exec(&cs, &pre, start) {
                proof {
                    let t = cs@.skip(start as int);
                    assert(t.take(pre@.len() as int) == cs@.subrange(start as int, start + pre@.len()));
                    assert(!starts_with(t, pre@));
                    assert(trim_prefix(t, pre@) == t);
                }
                break;
            }
            proof {
                let t = cs@.skip(start as int);
                assert(t.take(pre@.len() as int) == cs@.subrange(start as int, start + pre@.len()));
                assert(t.skip(pre@.len() as int) == cs@.skip(start + pre@.len()));
            }
            start = start + pre.len();
        }
    }
    let r = string_of_range(&cs, start, cs.len());
    proof {
        assert(cs@.subrange(start as int, cs@.len() as int) == cs@.skip(start as int));
    }
    r
}

// ---------------------------------------------------------------------------
// Whitespace and lines.
// ---------------------------------------------------------------------------

pub open spec fn trim_ws_front(s: Seq<char>) -> Seq<char>
    decreases s.len(),
{
    if s.len() > 0 && is_whitespace_char(s[0]) {
        trim_ws_front(s.drop_first())
    } else {
        s
    }
}

pub open spec fn trim_ws_back(s: Seq<char>) -> Seq<char>
    decreases s.len(),
{
    if s.len() > 0 && is_whitespace_char(s.last()) {
        trim_ws_back(s.drop_last())
    } else {
        s
    }
}

/// `s` without leading and trailing whitespace, as `str::trim` returns it.
pub open spec fn trim_ws(s: Seq<char>) -> Seq<char> {
    trim_ws_back(trim_ws_front(s))
}

/// The bounds of `v[from..to]` without leading and trailing whitespace.
pub fn trim_bounds(v: &Vec<char>, from: usize, to: usize) -> (r: (usize, usize))
    requires
        from <= to <= v@.len(),
    ensures
        from <= r.0 <= r.1 <= to,
        v@.subrange(r.0 as int, r.1 as int) == trim_ws(v@.subrange(from as int, to as int)),
{
    let mut a = from;
    while a < to
        invariant
            from <= a <= to <= v@.len(),
            trim_ws_front(v@.subrange(from as int, to as int)) == trim_ws_front(v@.subrange(a as int, to as int)),
        ensures
            from <= a <= to <= v@.len(),
            trim_ws_front(v@.subrange(from as int, to as int)) == trim_ws_front(v@.subrange(a as int, to as int)),
            a < to ==> !is_whitespace_char(v@[a as int]),
        decreases to - a,
    {
        if !char_is_whitespace(v[a]) {
            break;
        }
        proof {
            assert(v@.subrange(a as int, to as int).drop_first() == v@.subrange(a + 1, to as int));
        }
        a += 1;
    }
    let ghost front = v@.subrange(a as int, to as int);
    proof {
        assert(trim_ws_front(front) == front);
    }
    let mut b = to;
    while b > a
        invariant
            from <= a <= b <= to <= v@.len(),
            front == v@.subrange(a as int, to as int),
            trim_ws_back(front) == trim_ws_back(v@.subrange(a as int, b as int)),
        ensures
            from <= a <= b <= to <= v@.len(),
            trim_ws_back(front) == trim_ws_back(v@.subrange(a as int, b as int)),
            b > a ==> !is_whitespace_char(v@[b - 1]),
        decreases b,
    {
        if !char_is_whitespace(v[b - 1]) {
            break;
        }
        proof {
            assert(v@.subrange(a as int, b as int).drop_last() == v@.subrange(a as int, b - 1));
        }
        b -= 1;
    }
    proof {
        let t = v@.subrange(a as int, b as int);
        assert(trim_ws_back(t) == t);
    }
    (a, b)
}

/// `s` without leading and trailing whitespace.
pub fn str_trim(s: &str) -> (r: String)
    ensures
        r@ == trim_ws(s@),
{
    let cs = chars_of(s);
    let (a, b) = trim_bounds(&cs, 0, cs.len());
    proof {
        assert(cs@.subrange(0, cs@.len() as int) == cs@);
    }
    string_of_range(&cs, a, b)
}

/// The position of the first `c` in `s`.
pub open spec fn index_of(s: Seq<char>, c: char) -> Option<int>
    decreases s.len(),
{
    if s.len() == 0 {
        None
    } else if s[0] == c {
        Some(0)
    } else {
        match index_of(s.drop_first(), c) {
            Some(i) => Some(i + 1),
            None => None,
        }
    }
}

pub proof fn lemma_index_of(s: Seq<char>, c: char)
    ensures
        match index_of(s, c) {
            Some(i) => 0 <= i < s.len() && s[i] == c && forall|j: int| 0 <= j < i ==> #[trigger] s[j] != c,
            None => forall|j: int| 0 <= j < s.len() ==> #[trigger] s[j] != c,
        },
    decreases s.len(),
{
    if s.len() > 0 {
        lemma_index_of(s.drop_first(), c);
        if s[0] != c {
            match index_of(s.drop_first(), c) {
                Some(i) => {
                    assert forall|j: int| 0 <= j < i + 1 implies #[trigger] s[j] != c by {
                        if j > 0 {
                            assert(s[j] == s.drop_first()[j - 1]);
                        }
                    }
                },
                None => {
                    assert forall|j: int| 0 <= j < s.len() implies #[trigger] s[j] != c by {
                        if j > 0 {
                            assert(s[j] == s.drop_first()[j - 1]);
                        }
                    }
                },
            }
        }
    }
}

/// A line without the carriage return of its "\r\n" ending.
pub open spec fn strip_cr(l: Seq<char>) -> Seq<char> {
    if l.len() > 0 && l.last() == '\r' {
        l.drop_last()
    } else {
        l
    }
}

/// The lines of `s`, as `str::lines` yields them: split at '\n', a '\r'
/// before the '\n' dropped, and no empty line after a final '\n'.
pub open spec fn lines(s: Seq<char>) -> Seq<Seq<char>>
    decreases s.len(),
{
    if s.len() == 0 {
        seq![]
    } else {
        match index_of(s, '\n') {
            Some(i) => {
                proof {
                    lemma_index_of(s, '\n');
                }
                seq![strip_cr(s.take(i))] + lines(s.skip(i + 1))
            },
            None => seq![s],
        }
    }
}

pub open spec fn strings_view(v: Seq<String>) -> Seq<Seq<char>> {
    v.map_values(|s: String| s@)
}

/// The lines of a text.
pub fn lines_of(s: &str) -> (r: Vec<String>)
    ensures
        strings_view(r@) == lines(s@),
{
    let cs = chars_of(s);
    let n = cs.len();
    let mut r: Vec<String> = Vec::new();
    let mut start: usize = 0;
    let mut i: usize = 0;
    proof {
        assert(cs@.skip(0) == cs@);
        assert(strings_view(r@) =~= Seq::<Seq<char>>::empty());
    }
    while i < n
        invariant
            n == cs@.len(),
            cs@ == s@,
            start <= i <= n,
            forall|j: int| start <= j < i ==> #[trigger] cs@[j] != '\n',
            lines(s@) == strings_view(r@) + lines(cs@.skip(start as int)),
        decreases n - i,
    {
        if cs[i] == '\n' {
            let end = if i > start && cs[i - 1] == '\r' { i - 1 } else { i };
            let line = string_of_range(&cs, start, end);
            let ghost rest = cs@.skip(start as int);
            proof {
                lemma_index_of(rest, '\n');
                let k = (i - start) as int;
                assert(rest[k] == '\n');
                assert forall|j: int| 0 <= j < k implies #[trigger] rest[j] != '\n' by {
                    assert(rest[j] == cs@[start + j]);
                }
                match index_of(rest, '\n') {
                    Some(k2) => {
                        if k2 < k {
                            assert(rest[k2] != '\n');
                        }
                        if k2 > k {
                            assert(rest[k] != '\n');
                        }
                    },
                    None => {
                        assert(rest[k] != '\n');
                    },
                }
                assert(rest.take(k) == cs@.subrange(start as int, i as int));
                assert(rest.skip(k + 1) == cs@.skip(i + 1));
                assert(strip_cr(rest.take(k)) == cs@.subrange(start as int, end as int));
                assert(strings_view(r@.push(line)) == strings_view(r@).push(line@));
                assert(lines(rest) == seq![strip_cr(rest.take(k))] + lines(rest.skip(k + 1)));
            }
            r.push(line);
            start = i + 1;
        }
        i += 1;
    }
    if start < n {
        let line = string_of_range(&cs, start, n);
        proof {
            let rest = cs@.skip(start as int);
            lemma_index_of(rest, '\n');
            match index_of(rest, '\n') {
                Some(k2) => {
                    assert(rest[k2] == cs@[start + k2]);
                },
                None => {},
            }
            assert(rest == cs@.subrange(start as int, n as int));
            assert(strings_view(r@.push(line)) == strings_view(r@).push(line@));
        }
        r.push(line);
    } else {
        proof {
            assert(cs@.skip(start as int) =~= Seq::<char>::empty());
        }
    }
    r
}

/// `s` without `prefix`, when it starts with it.
pub fn strip_prefix(s: &str, prefix: &str) -> (r: Option<String>)
    ensures
        starts_with(s@, prefix@) ==> (r matches Some(v) && v@ == s@.skip(prefix@.len() as int)),
        !starts_with(s@, prefix@) ==> r is None,
{
    let cs = chars_of(s);
    let pre = chars_of(prefix);
    if chars_start_with(&cs, &pre) {
        let v = string_of_range(&cs, pre.len(), cs.len());
        proof {
            assert(cs@.subrange(pre@.len() as int, cs@.len() as int) == cs@.skip(pre@.len() as int));
        }
        Some(v)
    } else {
        None
    }
}

/// The non-empty lines of a text, each trimmed of surrounding whitespace.
pub open spec fn trimmed_nonempty(ls: Seq<Seq<char>>) -> Seq<Seq<char>>
    decreases ls.len(),
{
    if ls.len() == 0 {
        seq![]
    } else {
        let prev = trimmed_nonempty(ls.drop_last());
        let t = trim_ws(ls.last());
        if t.len() > 0 {
            prev.push(t)
        } else {
            prev
        }
    }
}

/// The lines of a text, trimmed, without the empty ones.
pub fn trimmed_lines(s: &str) -> (r: Vec<String>)
    ensures
        strings_view(r@) == trimmed_nonempty(lines(s@)),
{
    let all = lines_of(s);
    let ghost ls = lines(s@);
    let mut r: Vec<String> = Vec::new();
    let mut k: usize = 0;
    proof {
        assert(strings_view(r@) =~= trimmed_nonempty(ls.take(0)));
    }
    while k < all.len()
        invariant
            strings_view(all@) == ls,
            k <= all@.len(),
            strings_view(r@) == trimmed_nonempty(ls.take(k as int)),
        decreases all@.len() - k,
    {
        let t = str_trim(all[k].as_str());
        proof {
            assert(ls.take(k + 1).drop_last() == ls.take(k as int));
            assert(ls.take(k + 1).last() == all@[k as int]@);
            assert(strings_view(r@.push(t)) == strings_view(r@).push(t@));
        }
        if !t.as_str().is_empty() {
            r.push(t);
        }
        k += 1;
    }
    proof {
        assert(ls.take(all@.len() as int) == ls);
    }
    r
}

// ---------------------------------------------------------------------------
// Decimal numbers.
// ---------------------------------------------------------------------------

pub open spec fn digit_char(d: nat) -> char {
    if d == 0 { '0' } else if d == 1 { '1' } else if d == 2 { '2' } else if d == 3 { '3' }
    else if d == 4 { '4' } else if d == 5 { '5' } else if d == 6 { '6' } else if d == 7 { '7' }
    else if d == 8 { '8' } else { '9' }
}

/// The decimal digits of `n`, without leading zeros.
pub open spec fn decimal(n: nat) -> Seq<char>
    decreases n,
{
    if n < 10 {
        seq![digit_char(n)]
    } else {
        decimal(n / 10).push(digit_char(n % 10))
    }
}

fn digit_to_char(d: u64) -> (c: char)
    requires
        d < 10,
    ensures
        c == digit_char(d as nat),
{
    if d == 0 { '0' } else if d == 1 { '1' } else if d == 2 { '2' } else if d == 3 { '3' }
    else if d == 4 { '4' } else if d == 5 { '5' } else if d == 6 { '6' } else if d == 7 { '7' }
    else if d == 8 { '8' } else { '9' }
}

pub open spec fn digit_value(c: char) -> nat {
    (c as int - '0' as int) as nat
}

/// The number written by the decimal digits `s`.
pub open spec fn digits_value(s: Seq<char>) -> nat
    decreases s.len(),
{
    if s.len() == 0 {
        0
    } else {
        digits_value(s.drop_last()) * 10 + digit_value(s.last())
    }
}

pub open spec fn all_digits(s: Seq<char>) -> bool {
    forall|i: int| 0 <= i < s.len() ==> #[trigger] is_ascii_digit(s[i])
}

/// What `str::parse::<u64>` accepts: an optional '+', then one or more
/// decimal digits whose value fits in 64 bits.
pub open spec fn parsed_u64(s: Seq<char>) -> Option<u64> {
    let d = if s.len() > 0 && s[0] == '+' { s.drop_first() } else { s };
    if d.len() > 0 && all_digits(d) && digits_value(d) <= u64::MAX {
        Some(digits_value(d) as u64)
    } else {
        None
    }
}

proof fn lemma_digits_value_grows(s: Seq<char>, j: int, k: int)
    requires
        0 <= j <= k <= s.len(),
    ensures
        digits_value(s.take(j)) <= digits_value(s.take(k)),
    decreases k - j,
{
    if j < k {
        lemma_digits_value_grows(s, j, k - 1);
        assert(s.take(k).drop_last() == s.take(k - 1));
    }
}

/// Reads an unsigned decimal number, as `str::parse::<u64>` does.
pub fn parse_u64(s: &str) -> (r: Option<u64>)
    ensures
        r == parsed_u64(s@),
{
    let cs = chars_of(s);
    let start: usize = if cs.len() > 0 && cs[0] == '+' { 1 } else { 0 };
    let ghost d = if s@.len() > 0 && s@[0] == '+' { s@.drop_first() } else { s@ };
    proof {
        assert(d == cs@.skip(start as int));
    }
    if start >= cs.len() {
        return None;
    }
    let mut v: u64 = 0;
    let mut i = start;
    proof {
        assert(d.take(0) =~= Seq::<char>::empty());
    }
    while i < cs.len()
        invariant
            cs@ == s@,
            d == cs@.skip(start as int),
            d == (if s@.len() > 0 && s@[0] == '+' { s@.drop_first() } else { s@ }),
            start < cs@.len(),
            start <= i <= cs@.len(),
            all_digits(d.take(i - start)),
            v as nat == digits_value(d.take(i - start)),
        decreases cs@.len() - i,
    {
        let c = cs[i];
        let k = i - start;
        proof {
            assert(d.take(k + 1).drop_last() == d.take(k as int));
            assert(d.take(k + 1).last() == c);
        }
        if !(c >= '0' && c <= '9') {
            proof {
                assert(d[k as int] == c);
                assert(!is_ascii_digit(d[k as int]));
            }
            return None;
        }
        let digit = (c as u32 - '0' as u32) as u64;
        proof {
            assert(digit as nat == digit_value(c));
            assert(digits_value(d.take(k + 1)) == digits_value(d.take(k as int)) * 10 + digit_value(c));
        }
        match v.checked_mul(10) {
            Some(t) => match t.checked_add(digit) {
                Some(nv) => {
                    v = nv;
                },
                None => {
                    proof {
                        lemma_digits_value_grows(d, k + 1, d.len() as int);
                        assert(d.take(d.len() as int) == d);
                    }
                    return None;
                },
            },
            None => {
                proof {
                    lemma_digits_value_grows(d, k + 1, d.len() as int);
                    assert(d.take(d.len() as int) == d);
                }
                return None;
            },
        }
        proof {
            assert forall|j: int| 0 <= j < k + 1 implies #[trigger] is_ascii_digit(d.take(k + 1)[j]) by {
                if j < k {
                    assert(d.take(k + 1)[j] == d.take(k as int)[j]);
                }
            }
        }
        i += 1;
    }
    proof {
        assert(d.take(d.len() as int) == d);
    }
    Some(v)
}

/// What `str::parse::<u32>` accepts: as for `u64`, with the value fitting in
/// 32 bits.
pub open spec fn parsed_u32(s: Seq<char>) -> Option<u32> {
    match parsed_u64(s) {
        Some(v) => if v <= u32::MAX {
            Some(v as u32)
        } else {
            None
        },
        None => None,
    }
}

/// Reads an unsigned 32-bit decimal number, as `str::parse::<u32>` does.
pub fn parse_u32(s: &str) -> (r: Option<u32>)
    ensures
        r == parsed_u32(s@),
{
    match parse_u64(s) {
        Some(v) => if v <= 0xffff_ffff {
            Some(v as u32)
        } else {
            None
        },
        None => None,
    }
}

/// The decimal representation of `n`.
pub fn decimal_string(n: u64) -> (r: String)
    ensures
        r@ == decimal(n as nat),
    decreases n,
{
    if n < 10 {
        let mut r = String::new();
        push_char(&mut r, digit_to_char(n));
        proof {
            assert(r@ =~= seq![digit_char(n as nat)]);
        }
        r
    } else {
        let mut r = decimal_string(n / 10);
        push_char(&mut r, digit_to_char(n % 10));
        r
    }
}

proof fn lemma_digit_char(d: nat)
    requires
        d < 10,
    ensures
        is_ascii_digit(digit_char(d)),
        digit_value(digit_char(d)) == d,
{
}

proof fn lemma_decimal_digits(n: nat)
    ensures
        decimal(n).len() > 0,
        all_digits(decimal(n)),
        digits_value(decimal(n)) == n,
    decreases n,
{
    if n < 10 {
        lemma_digit_char(n);
        let d = decimal(n);
        assert(d.drop_last() =~= Seq::<char>::empty());
        assert(digits_value(d.drop_last()) == 0);
    } else {
        lemma_digit_char(n % 10);
        assert(n == (n / 10) * 10 + n % 10);
        lemma_decimal_digits(n / 10);
        let d = decimal(n);
        assert(d.drop_last() == decimal(n / 10));
        assert(d.last() == digit_char(n % 10));
        assert forall|i: int| 0 <= i < d.len() implies #[trigger] is_ascii_digit(d[i]) by {
            if i < d.len() - 1 {
                assert(d[i] == decimal(n / 10)[i]);
            }
        }
    }
}

/// Reading back a printed number gives the number: `parse_u64` undoes
/// `decimal_string`.
pub proof fn lemma_parse_decimal_roundtrip(n: u64)
    ensures
        parsed_u64(decimal(n as nat)) == Some(n),
{
    lemma_decimal_digits(n as nat);
    let d = decimal(n as nat);
    assert(is_ascii_digit(d[0]));
}

/// Different numbers print differently.
pub proof fn lemma_decimal_injective(a: nat, b: nat)
    requires
        decimal(a) == decimal(b),
    ensures
        a == b,
{
    lemma_decimal_digits(a);
    lemma_decimal_digits(b);
}


// ---------------------------------------------------------------------------
// Splitting at a character.
// ---------------------------------------------------------------------------

/// The position of the first `c` in `s`, as `str::find` with a `char` gives
/// it (counted in characters).
pub fn find_char(s: &str, c: char) -> (r: Option<usize>)
    ensures
        match r {
            Some(i) => index_of(s@, c) == Some(i as int),
            None => index_of(s@, c) is None,
        },
{
    let cs = chars_of(s);
    proof {
        lemma_index_of(s@, c);
    }
    let mut i: usize = 0;
    while i < cs.len()
        invariant
            cs@ == s@,
            i <= cs@.len(),
            forall|j: int| 0 <= j < i ==> #[trigger] cs@[j] != c,
        decreases cs@.len() - i,
    {
        if cs[i] == c {
            proof {
                lemma_index_of(s@, c);
                match index_of(s@, c) {
                    Some(k) => {
                        if k < i {
                            assert(cs@[k] != c);
                        }
                        if k > i {
                            assert(s@[i as int] != c);
                        }
                    },
                    None => {
                        assert(s@[i as int] != c);
                    },
                }
            }
            return Some(i);
        }
        i += 1;
    }
    proof {
        match index_of(s@, c) {
            Some(k) => {
                assert(cs@[k] != c);
            },
            None => {},
        }
    }
    None
}

/// The pieces of `s` between the occurrences of `c`, as `str::split` with a
/// `char` yields them.
pub open spec fn split_char(s: Seq<char>, c: char) -> Seq<Seq<char>>
    decreases s.len(),
{
    match index_of(s, c) {
        Some(i) => {
            proof {
                lemma_index_of(s, c);
            }
            seq![s.take(i)] + split_char(s.skip(i + 1), c)
        },
        None => seq![s],
    }
}

/// Splits `s` at each `c`.
pub fn split_at_char(s: &str, c: char) -> (r: Vec<String>)
    ensures
        strings_view(r@) == split_char(s@, c),
    decreases s@.len(),
{
    match find_char(s, c) {
        Some(i) => {
            let cs = chars_of(s);
            proof {
                lemma_index_of(s@, c);
                assert(index_of(s@, c) == Some(i as int));
                assert(i < cs@.len());
            }
            let head = string_of_range(&cs, 0, i);
            assert(i + 1 <= cs.len());
            let tail = string_of_range(&cs, i + 1, cs.len());
            proof {
                assert(head@ == s@.take(i as int));
                assert(tail@ == s@.skip(i + 1));
            }
            let rest = split_at_char(tail.as_str(), c);
            let mut r: Vec<String> = Vec::new();
            r.push(head);
            let mut rest = rest;
            let ghost rv = strings_view(rest@);
            r.append(&mut rest);
            proof {
                assert(strings_view(r@) =~= seq![s@.take(i as int)] + rv);
            }
            r
        },
        None => {
            let mut r: Vec<String> = Vec::new();
            r.push(String::from_str(s));
            proof {
                assert(strings_view(r@) =~= seq![s@]);
            }
            r
        },
    }
}


// ---------------------------------------------------------------------------
// Words.
// ---------------------------------------------------------------------------

/// The whitespace-separated words of `s`, where `cur` is the part of a word
/// already read.
pub open spec fn words_from(s: Seq<char>, cur: Seq<char>) -> Seq<Seq<char>>
    decreases s.len(),
{
    if s.len() == 0 {
        if cur.len() > 0 { seq![cur] } else { seq![] }
    } else if is_whitespace_char(s[0]) {
        (if cur.len() > 0 { seq![cur] } else { seq![] }) + words_from(s.drop_first(), seq![])
    } else {
        words_from(s.drop_first(), cur.push(s[0]))
    }
}

/// The words of `s`, as `str::split_whitespace` yields them.
pub open spec fn words(s: Seq<char>) -> Seq<Seq<char>> {
    words_from(s, seq![])
}

/// Splits `s` into its whitespace-separated words.
pub fn split_words(s: &str) -> (r: Vec<String>)
    ensures
        strings_view(r@) == words(s@),
{
    let cs = chars_of(s);
    let mut out: Vec<String> = Vec::new();
    let mut cur: Vec<char> = Vec::new();
    let mut i: usize = 0;
    proof {
        assert(cs@.skip(0) == cs@);
        assert(strings_view(out@) + words_from(cs@.skip(0), cur@) =~= words(s@));
    }
    while i < cs.len()
        invariant
            i <= cs@.len(),
            cs@ == s@,
            strings_view(out@) + words_from(cs@.skip(i as int), cur@) == words(s@),
        decreases cs@.len() - i,
    {
        let ghost rest = cs@.skip(i as int);
        let ghost before = strings_view(out@);
        proof {
            assert(rest[0] == cs@[i as int]);
            assert(rest.drop_first() == cs@.skip(i + 1));
        }
        let c = cs[i];
        if char_is_whitespace(c) {
            if cur.len() > 0 {
                let w = string_of(&cur);
                out.push(w);
                proof {
                    assert(strings_view(out@) =~= before.push(cur@));
                    assert(strings_view(out@) + words_from(cs@.skip(i + 1), seq![]) =~= before + (seq![cur@]
                        + words_from(rest.drop_first(), seq![])));
                }
            } else {
                proof {
                    assert(before + words_from(cs@.skip(i + 1), seq![]) =~= before + (Seq::<Seq<char>>::empty()
                        + words_from(rest.drop_first(), seq![])));
                }
            }
            cur = Vec::new();
            proof {
                assert(cur@ =~= Seq::<char>::empty());
            }
        } else {
            cur.push(c);
        }
        i += 1;
    }
    if cur.len() > 0 {
        let ghost before = strings_view(out@);
        let w = string_of(&cur);
        out.push(w);
        proof {
            assert(cs@.skip(cs@.len() as int) =~= Seq::<char>::empty());
            assert(strings_view(out@) =~= before.push(cur@));
        }
    } else {
        proof {
            assert(cs@.skip(cs@.len() as int) =~= Seq::<char>::empty());
            assert(strings_view(out@) + Seq::<Seq<char>>::empty() =~= strings_view(out@));
        }
    }
    out
}

} // verus!

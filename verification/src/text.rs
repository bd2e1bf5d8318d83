use vstd::prelude::*;
use vstd::string::StringExecFns;

verus! {

/// Calls `String::push`: the character is appended.
#[verifier::external_body]
pub(crate) fn push_char(s: &mut String, c: char)
    ensures
        final(s)@ == old(s)@.push(c),
{
    s.push(c);
}

/// Appends a text.
pub(crate) fn push_str(s: &mut String, t: &str)
    ensures
        final(s)@ == old(s)@ + t@,
{
    s.append(t);
}

pub open spec fn hex_digit(n: u32) -> char {
    if n < 10 {
        ((n + 48) as u8) as char
    } else {
        ((n + 87) as u8) as char
    }
}

/// How serde_json writes one character inside a string literal.
pub open spec fn escape_char(c: char) -> Seq<char> {
    if c == '"' {
        seq!['\\', '"']
    } else if c == '\\' {
        seq!['\\', '\\']
    } else if c == '\n' {
        seq!['\\', 'n']
    } else if c == '\r' {
        seq!['\\', 'r']
    } else if c == '\t' {
        seq!['\\', 't']
    } else if c == '\x08' {
        seq!['\\', 'b']
    } else if c == '\x0c' {
        seq!['\\', 'f']
    } else if (c as u32) < 0x20 {
        seq!['\\', 'u', '0', '0', hex_digit((c as u32) / 16), hex_digit((c as u32) % 16)]
    } else {
        seq![c]
    }
}

pub open spec fn escape_str(s: Seq<char>) -> Seq<char>
    decreases s.len(),
{
    if s.len() == 0 {
        Seq::empty()
    } else {
        escape_str(s.drop_last()) + escape_char(s.last())
    }
}

pub fn push_escaped(s: &str, out: &mut String)
    ensures
        final(out)@ == old(out)@ + escape_str(s@),
{
    let ghost start = out@;
    let mut idx: usize = 0;
    for c in it: s.chars()
        invariant
            it.seq() == s@,
            out@ == start + escape_str(s@.take(it.index() as int)),
    {
        assert(s@.take(it.index() + 1).drop_last() =~= s@.take(it.index() as int));
        let u = c as u32;
        if c == '"' {
            proof {
                reveal_strlit("\\\"");
            }
            push_str(out, "\\\"");
        } else if c == '\\' {
            proof {
                reveal_strlit("\\\\");
            }
            push_str(out, "\\\\");
        } else if c == '\n' {
            proof {
                reveal_strlit("\\n");
            }
            push_str(out, "\\n");
        } else if c == '\r' {
            proof {
                reveal_strlit("\\r");
            }
            push_str(out, "\\r");
        } else if c == '\t' {
            proof {
                reveal_strlit("\\t");
            }
            push_str(out, "\\t");
        } else if c == '\x08' {
            proof {
                reveal_strlit("\\b");
            }
            push_str(out, "\\b");
        } else if c == '\x0c' {
            proof {
                reveal_strlit("\\f");
            }
            push_str(out, "\\f");
        } else if u < 0x20 {
            proof {
                reveal_strlit("\\u00");
            }
            push_str(out, "\\u00");
            push_char(out, hex_char(u / 16));
            push_char(out, hex_char(u % 16));
        } else {
            push_char(out, c);
        }
    }
    assert(s@.take(s@.len() as int) =~= s@);
}

pub fn hex_char(n: u32) -> (c: char)
    requires
        n < 16,
    ensures
        c == hex_digit(n),
{
    if n < 10 {
        ((n + 48) as u8) as char
    } else {
        ((n + 87) as u8) as char
    }
}

} // verus!

verus! {

pub open spec fn digit_char(d: nat) -> char {
    ((d + 48) as u8) as char
}

/// Decimal notation of a natural number.
pub open spec fn decimal(n: nat) -> Seq<char>
    decreases n,
{
    if n < 10 {
        seq![digit_char(n)]
    } else {
        decimal(n / 10).push(digit_char(n % 10))
    }
}

/// Appends the decimal notation of `n`.
pub fn push_decimal(out: &mut String, n: u64)
    ensures
        final(out)@ == old(out)@ + decimal(n as nat),
    decreases n,
{
    if n >= 10 {
        push_decimal(out, n / 10);
    }
    let d = (n % 10) as u8;
    push_char(out, (d + 48) as char);
}

/// Compares with `==` on `str` (`PartialEq::eq`): whether `a` and `b` hold
/// the same characters.
#[verifier::external_body]
pub(crate) fn str_eq(a: &str, b: &str) -> (res: bool)
    ensures
        res == (a@ == b@),
{
    a == b
}

} // verus!

verus! {

/// Characters with the Unicode White_Space property (what `char::is_whitespace` accepts).
pub open spec fn is_white_space(c: char) -> bool {
    let u = c as u32;
    ||| 0x09 <= u <= 0x0d
    ||| u == 0x20
    ||| u == 0x85
    ||| u == 0xa0
    ||| u == 0x1680
    ||| 0x2000 <= u <= 0x200a
    ||| u == 0x2028
    ||| u == 0x2029
    ||| u == 0x202f
    ||| u == 0x205f
    ||| u == 0x3000
}

pub fn is_whitespace(c: char) -> (r: bool)
    ensures
        r == is_white_space(c),
{
    let u = c as u32;
    (0x09 <= u && u <= 0x0d) || u == 0x20 || u == 0x85 || u == 0xa0 || u == 0x1680 || (0x2000
        <= u && u <= 0x200a) || u == 0x2028 || u == 0x2029 || u == 0x202f || u == 0x205f || u
        == 0x3000
}

/// Every character is white space (so the trimmed text is empty).
pub open spec fn is_blank(s: Seq<char>) -> bool {
    forall|i: int| 0 <= i < s.len() ==> is_white_space(#[trigger] s[i])
}

pub fn is_blank_str(s: &str) -> (r: bool)
    ensures
        r == is_blank(s@),
{
    for c in it: s.chars()
        invariant
            it.seq() == s@,
            forall|k: int| 0 <= k < it.index() ==> is_white_space(#[trigger] s@[k]),
    {
        if !is_whitespace(c) {
            return false;
        }
    }
    true
}

} // verus!

verus! {

/// Decimal notation of a signed integer.
pub open spec fn signed_decimal(n: int) -> Seq<char> {
    if n < 0 {
        seq!['-'] + decimal((-n) as nat)
    } else {
        decimal(n as nat)
    }
}

/// Appends the decimal notation of `n`.
pub fn push_signed(out: &mut String, n: i64)
    ensures
        final(out)@ == old(out)@ + signed_decimal(n as int),
{
    if n < 0 {
        push_char(out, '-');
        let m: u64 = if n == i64::MIN {
            9223372036854775808u64
        } else {
            (-n) as u64
        };
        push_decimal(out, m);
    } else {
        push_decimal(out, n as u64);
    }
}

/// A string made of the given text.
pub fn string_of(s: &str) -> (r: String)
    ensures
        r@ == s@,
{
    s.to_owned()
}

} // verus!

verus! {

/// `needle` occurs in `hay` at position `i`.
pub open spec fn occurs_at(hay: Seq<char>, needle: Seq<char>, i: int) -> bool {
    0 <= i && i + needle.len() <= hay.len() && hay.subrange(i, i + needle.len()) == needle
}

/// `needle` occurs somewhere in `hay`.
pub open spec fn contains_seq(hay: Seq<char>, needle: Seq<char>) -> bool {
    exists|i: int| occurs_at(hay, needle, i)
}

pub fn chars_of(s: &str) -> (res: Vec<char>)
    ensures
        res@ == s@,
{
    let mut v: Vec<char> = Vec::new();
    for c in it: s.chars()
        invariant
            it.seq() == s@,
            v@ == s@.take(it.index() as int),
    {
        v.push(c);
        assert(v@ =~= s@.take(it.index() + 1));
    }
    assert(s@.take(s@.len() as int) =~= s@);
    v
}

fn matches_at(hay: &Vec<char>, needle: &Vec<char>, i: usize) -> (r: bool)
    requires
        i + needle@.len() <= hay@.len(),
    ensures
        r == (hay@.subrange(i as int, i + needle@.len()) == needle@),
{
    let hl = hay.len();
    let mut k: usize = 0;
    while k < needle.len()
        invariant
            hl == hay@.len(),
            k <= needle@.len(),
            i + needle@.len() <= hay@.len(),
            forall|m: int| 0 <= m < k ==> hay@[i + m] == needle@[m],
        decreases needle.len() - k,
    {
        if hay[i + k] != needle[k] {
            assert(hay@.subrange(i as int, i + needle@.len())[k as int] != needle@[k as int]);
            return false;
        }
        k = k + 1;
    }
    assert(hay@.subrange(i as int, i + needle@.len()) =~= needle@);
    true
}

/// Whether `needle` occurs in `hay`.
pub fn contains_str(hay: &str, needle: &str) -> (r: bool)
    ensures
        r == contains_seq(hay@, needle@),
{
    let h = chars_of(hay);
    let n = chars_of(needle);
    if n.len() > h.len() {
        return false;
    }
    if n.len() == 0 {
        assert(hay@.subrange(0, 0) =~= needle@);
        assert(occurs_at(hay@, needle@, 0));
        return true;
    }
    let hl = h.len();
    let last = h.len() - n.len();
    let mut i: usize = 0;
    while i <= last
        invariant
            h@ == hay@,
            n@ == needle@,
            hl == h@.len(),
            n@.len() > 0,
            last + n@.len() == h@.len(),
            i <= last + 1,
            forall|j: int| 0 <= j < i ==> !occurs_at(hay@, needle@, j),
        decreases last + 1 - i,
    {
        if matches_at(&h, &n, i) {
            assert(occurs_at(hay@, needle@, i as int));
            return true;
        }
        i = i + 1;
    }
    false
}

/// Whether `s` starts with `prefix`.
pub fn starts_with_str(s: &str, prefix: &str) -> (r: bool)
    ensures
        r == (prefix@.len() <= s@.len() && s@.subrange(0, prefix@.len() as int) == prefix@),
{
    let h = chars_of(s);
    let p = chars_of(prefix);
    if p.len() > h.len() {
        return false;
    }
    matches_at(&h, &p, 0)
}

/// The lower-case form of a text, as `str::to_lowercase` gives it (full
/// Unicode case mapping).
pub uninterp spec fn lowercase(s: Seq<char>) -> Seq<char>;

/// Calls `str::to_lowercase`.
#[verifier::external_body]
pub(crate) fn to_lowercase(s: &str) -> (res: String)
    ensures
        res@ == lowercase(s@),
{
    s.to_lowercase()
}

} // verus!

verus! {

/// The number of white-space characters `s` starts with.
pub open spec fn leading_space(s: Seq<char>) -> nat
    decreases s.len(),
{
    if s.len() > 0 && is_white_space(s[0]) {
        1 + leading_space(s.drop_first())
    } else {
        0
    }
}

/// The first position at or after `from` where `pat` occurs in `s`.
pub open spec fn first_occurrence(s: Seq<char>, pat: Seq<char>, from: int) -> Option<int>
    decreases s.len() + 1 - from,
{
    if from < 0 || from + pat.len() > s.len() {
        None
    } else if occurs_at(s, pat, from) {
        Some(from)
    } else {
        first_occurrence(s, pat, from + 1)
    }
}

/// A reply without its leading reasoning block: when the text (after
/// white space) opens with `<think>`, everything up to the first `</think>`
/// after it, and the white space that follows, is removed.
pub open spec fn strip_think(s: Seq<char>) -> Seq<char> {
    let i = leading_space(s) as int;
    if occurs_at(s, "<think>"@, i) {
        match first_occurrence(s, "</think>"@, i + 7) {
            Some(j) => s.skip(j + 8 + leading_space(s.skip(j + 8))),
            None => s,
        }
    } else {
        s
    }
}

pub proof fn lemma_first_occurrence(s: Seq<char>, pat: Seq<char>, from: int)
    ensures
        match first_occurrence(s, pat, from) {
            Some(j) => from <= j && j + pat.len() <= s.len() && occurs_at(s, pat, j),
            None => true,
        },
    decreases s.len() + 1 - from,
{
    if !(from < 0 || from + pat.len() > s.len()) && !occurs_at(s, pat, from) {
        lemma_first_occurrence(s, pat, from + 1);
    }
}

pub proof fn lemma_leading_space_bound(s: Seq<char>)
    ensures
        leading_space(s) <= s.len(),
    decreases s.len(),
{
    if s.len() > 0 && is_white_space(s[0]) {
        lemma_leading_space_bound(s.drop_first());
    }
}

fn count_leading_space(v: &Vec<char>, from: usize) -> (res: usize)
    requires
        from <= v@.len(),
    ensures
        res == from + leading_space(v@.skip(from as int)),
        res <= v@.len(),
{
    let mut i = from;
    while i < v.len() && is_whitespace(v[i])
        invariant
            from <= i <= v@.len(),
            leading_space(v@.skip(from as int)) == (i - from) + leading_space(v@.skip(i as int)),
        decreases v.len() - i,
    {
        assert(v@.skip(i as int).drop_first() =~= v@.skip(i + 1));
        i = i + 1;
    }
    proof {
        if i < v@.len() {
            assert(v@.skip(i as int)[0] == v@[i as int]);
        }
    }
    i
}

fn find_from(v: &Vec<char>, pat: &Vec<char>, from: usize) -> (res: Option<usize>)
    requires
        from <= v@.len(),
        pat@.len() > 0,
    ensures
        match res {
            Some(j) => first_occurrence(v@, pat@, from as int) == Some(j as int) && j + pat@.len()
                <= v@.len(),
            None => first_occurrence(v@, pat@, from as int) is None,
        },
{
    proof {
        lemma_first_occurrence(v@, pat@, from as int);
    }
    if pat.len() > v.len() {
        return None;
    }
    let vl = v.len();
    let last = v.len() - pat.len();
    let mut j = from;
    while j <= last
        invariant
            from <= j,
            vl == v@.len(),
            last + pat@.len() == v@.len(),
            pat@.len() > 0,
            first_occurrence(v@, pat@, from as int) == first_occurrence(v@, pat@, j as int),
        decreases v@.len() - j,
    {
        if matches_at(v, pat, j) {
            return Some(j);
        }
        j = j + 1;
    }
    None
}

/// Removes a leading reasoning block, as `strip_think` describes.
pub fn strip_think_tag(text: &str) -> (res: String)
    ensures
        res@ == strip_think(text@),
{
    let v = chars_of(text);
    let open_tag = chars_of("<think>");
    let close_tag = chars_of("</think>");
    proof {
        reveal_strlit("<think>");
        reveal_strlit("</think>");
    }
    let i = count_leading_space(&v, 0);
    assert(v@.skip(0) =~= v@);
    if i < v.len() && v.len() - i >= 7 && matches_at(&v, &open_tag, i) {
        match find_from(&v, &close_tag, i + 7) {
            Some(j) => {
                let k = count_leading_space(&v, j + 8);
                let mut out = String::new();
                let mut p = k;
                while p < v.len()
                    invariant
                        k <= p <= v@.len(),
                        out@ == v@.subrange(k as int, p as int),
                    decreases v.len() - p,
                {
                    push_char(&mut out, v[p]);
                    assert(out@ =~= v@.subrange(k as int, p + 1));
                    p = p + 1;
                }
                assert(out@ =~= text@.skip(k as int));
                out
            },
            None => text.to_owned(),
        }
    } else {
        text.to_owned()
    }
}

} // verus!

verus! {

/// The characters of `s` from position `n` on.
pub fn skip_chars(s: &str, n: usize) -> (res: String)
    requires
        n <= s@.len(),
    ensures
        res@ == s@.skip(n as int),
{
    let v = chars_of(s);
    let mut out = String::new();
    let mut p = n;
    while p < v.len()
        invariant
            v@ == s@,
            n <= p <= v@.len(),
            out@ == v@.subrange(n as int, p as int),
        decreases v.len() - p,
    {
        push_char(&mut out, v[p]);
        assert(out@ =~= v@.subrange(n as int, p + 1));
        p = p + 1;
    }
    assert(out@ =~= s@.skip(n as int));
    out
}

/// The first `n` characters of `s`.
pub fn take_chars(s: &str, n: usize) -> (res: String)
    requires
        n <= s@.len(),
    ensures
        res@ == s@.take(n as int),
{
    let v = chars_of(s);
    let mut out = String::new();
    let mut p: usize = 0;
    while p < n
        invariant
            v@ == s@,
            n <= v@.len(),
            p <= n,
            out@ == v@.take(p as int),
        decreases n - p,
    {
        push_char(&mut out, v[p]);
        assert(out@ =~= v@.take(p + 1));
        p = p + 1;
    }
    out
}

/// The first position where `pat` occurs in `s`.
pub fn find_str(s: &str, pat: &str) -> (res: Option<usize>)
    requires
        pat@.len() > 0,
    ensures
        match res {
            Some(j) => first_occurrence(s@, pat@, 0) == Some(j as int) && j + pat@.len()
                <= s@.len(),
            None => first_occurrence(s@, pat@, 0) is None,
        },
        s@.len() <= usize::MAX,
{
    let v = chars_of(s);
    let p = chars_of(pat);
    assert(s@.len() == v.len());
    find_from(&v, &p, 0)
}


/// The number of white-space characters `s` ends with.
pub open spec fn trailing_space(s: Seq<char>) -> nat
    decreases s.len(),
{
    if s.len() > 0 && is_white_space(s.last()) {
        1 + trailing_space(s.drop_last())
    } else {
        0
    }
}

/// `s` without leading and trailing white space.
pub open spec fn trim(s: Seq<char>) -> Seq<char> {
    let a = leading_space(s);
    if a >= s.len() {
        Seq::empty()
    } else {
        s.subrange(a as int, s.len() - trailing_space(s))
    }
}

proof fn lemma_trailing_space_bound(s: Seq<char>)
    ensures
        trailing_space(s) <= s.len(),
    decreases s.len(),
{
    if s.len() > 0 && is_white_space(s.last()) {
        lemma_trailing_space_bound(s.drop_last());
    }
}

/// `s` without leading and trailing white space.
pub fn trim_str(s: &str) -> (res: String)
    ensures
        res@ == trim(s@),
{
    let v = chars_of(s);
    let a = count_leading_space(&v, 0);
    assert(v@.skip(0) =~= v@);
    if a == v.len() {
        return String::new();
    }
    let mut b = v.len();
    assert(v@.take(b as int) =~= v@);
    proof {
        lemma_leading_suffix(s@, a as nat);
        assert(s@.skip(a as int)[0] == s@[a as int]);
    }
    while b > a && is_whitespace(v[b - 1])
        invariant
            a < v@.len(),
            a < b <= v@.len(),
            v@ == s@,
            a == leading_space(s@),
            !is_white_space(v@[a as int]),
            trailing_space(s@) == (v@.len() - b) + trailing_space(v@.take(b as int)),
        decreases b,
    {
        assert(v@.take(b as int).drop_last() =~= v@.take(b - 1));
        b = b - 1;
    }
    proof {
        assert(!is_white_space(v@.take(b as int).last()));
    }
    let mut out = String::new();
    let mut p = a;
    while p < b
        invariant
            a <= p <= b <= v@.len(),
            v@ == s@,
            out@ == v@.subrange(a as int, p as int),
        decreases b - p,
    {
        push_char(&mut out, v[p]);
        assert(out@ =~= v@.subrange(a as int, p + 1));
        p = p + 1;
    }
    out
}

proof fn lemma_leading_suffix(s: Seq<char>, a: nat)
    requires
        a == leading_space(s),
        a < s.len(),
    ensures
        !is_white_space(s.skip(a as int)[0]),
    decreases s.len(),
{
    if s.len() > 0 && is_white_space(s[0]) {
        assert(s.drop_first().skip(a - 1) =~= s.skip(a as int));
        lemma_leading_suffix(s.drop_first(), (a - 1) as nat);
    }
}

/// Whether `c` is a control character (general category Cc).
pub open spec fn is_control(c: char) -> bool {
    let u = c as u32;
    u <= 0x1f || (0x7f <= u && u <= 0x9f)
}

pub fn is_control_char(c: char) -> (r: bool)
    ensures
        r == is_control(c),
{
    let u = c as u32;
    u <= 0x1f || (0x7f <= u && u <= 0x9f)
}

/// `s` with every occurrence of `pat` (left to right, not overlapping)
/// replaced by `with`.
pub open spec fn replace_all(s: Seq<char>, pat: Seq<char>, with: Seq<char>) -> Seq<char>
    decreases s.len(),
{
    if pat.len() == 0 {
        s
    } else {
        match first_occurrence(s, pat, 0) {
            Some(i) => {
                proof {
                    lemma_first_occurrence(s, pat, 0);
                }
                s.take(i) + with + replace_all(s.skip(i + pat.len()), pat, with)
            },
            None => s,
        }
    }
}

/// `s` with every occurrence of `pat` replaced by `with`.
pub fn replace_str(s: &str, pat: &str, with: &str) -> (res: String)
    requires
        pat@.len() > 0,
    ensures
        res@ == replace_all(s@, pat@, with@),
{
    let v = chars_of(s);
    let p = chars_of(pat);
    let mut out = String::new();
    let mut k: usize = 0;
    assert(v@.skip(0) =~= v@);
    while k <= v.len()
        invariant
            v@ == s@,
            p@ == pat@,
            p@.len() > 0,
            k <= v@.len() + 1,
            k <= v@.len() ==> out@ + replace_all(v@.skip(k as int), pat@, with@) == replace_all(
                s@,
                pat@,
                with@,
            ),
            k > v@.len() ==> out@ == replace_all(s@, pat@, with@),
        decreases v.len() + 1 - k,
    {
        match find_from(&v, &p, k) {
            Some(j) => {
                proof {
                    lemma_first_occurrence_shift(v@, pat@, k as int, j as int);
                }
                let mut q = k;
                let ghost before = out@;
                while q < j
                    invariant
                        k <= q <= j <= v@.len(),
                        out@ == before + v@.subrange(k as int, q as int),
                    decreases j - q,
                {
                    push_char(&mut out, v[q]);
                    assert(out@ =~= before + v@.subrange(k as int, q + 1));
                    q = q + 1;
                }
                push_str(&mut out, with);
                let ghost rest = v@.skip(k as int);
                assert(rest.take(j - k) =~= v@.subrange(k as int, j as int));
                assert(rest.skip(j - k + pat@.len()) =~= v@.skip(j + pat@.len()));
                assert(out@ =~= before + rest.take(j - k) + with@);
                k = j + p.len();
            },
            None => {
                proof {
                    lemma_first_occurrence_none_shift(v@, pat@, k as int);
                }
                let mut q = k;
                let ghost before = out@;
                while q < v.len()
                    invariant
                        k <= q <= v@.len(),
                        out@ == before + v@.subrange(k as int, q as int),
                    decreases v.len() - q,
                {
                    push_char(&mut out, v[q]);
                    assert(out@ =~= before + v@.subrange(k as int, q + 1));
                    q = q + 1;
                }
                assert(v@.subrange(k as int, v@.len() as int) =~= v@.skip(k as int));
                return out;
            },
        }
    }
    out
}

proof fn lemma_first_occurrence_shift(s: Seq<char>, pat: Seq<char>, k: int, j: int)
    requires
        0 <= k <= s.len(),
        pat.len() > 0,
        first_occurrence(s, pat, k) == Some(j),
    ensures
        first_occurrence(s.skip(k), pat, 0) == Some(j - k),
        k <= j,
        j + pat.len() <= s.len(),
{
    lemma_first_occurrence(s, pat, k);
    lemma_first_occurrence_skip(s, pat, k, 0);
}

proof fn lemma_first_occurrence_none_shift(s: Seq<char>, pat: Seq<char>, k: int)
    requires
        0 <= k <= s.len(),
        first_occurrence(s, pat, k) is None,
    ensures
        first_occurrence(s.skip(k), pat, 0) is None,
{
    lemma_first_occurrence_skip(s, pat, k, 0);
}

/// Searching the suffix from `from` is searching the whole from `k + from`.
proof fn lemma_first_occurrence_skip(s: Seq<char>, pat: Seq<char>, k: int, from: int)
    requires
        0 <= k <= s.len(),
        0 <= from,
    ensures
        first_occurrence(s.skip(k), pat, from) == match first_occurrence(s, pat, k + from) {
            Some(j) => Some(j - k),
            None => None,
        },
    decreases s.len() + 1 - (k + from),
{
    let t = s.skip(k);
    if !(from + pat.len() > t.len()) {
        assert(occurs_at(t, pat, from) == occurs_at(s, pat, k + from)) by {
            assert(t.subrange(from, from + pat.len()) =~= s.subrange(k + from, k + from + pat.len()));
        }
        if !occurs_at(t, pat, from) {
            lemma_first_occurrence_skip(s, pat, k, from + 1);
        }
    }
}


/// The parts joined with `sep` between them.
pub open spec fn join_with(parts: Seq<Seq<char>>, sep: Seq<char>) -> Seq<char>
    decreases parts.len(),
{
    if parts.len() == 0 {
        Seq::empty()
    } else if parts.len() == 1 {
        parts[0]
    } else {
        join_with(parts.drop_last(), sep) + sep + parts.last()
    }
}

/// The texts of a list of strings.
pub open spec fn texts_of(v: Seq<String>) -> Seq<Seq<char>> {
    v.map_values(|s: String| s@)
}

/// The strings joined with `sep` between them.
pub fn join_strs(parts: &Vec<String>, sep: &str) -> (res: String)
    ensures
        res@ == join_with(texts_of(parts@), sep@),
{
    let mut out = String::new();
    let mut i: usize = 0;
    while i < parts.len()
        invariant
            i <= parts@.len(),
            out@ == join_with(texts_of(parts@).take(i as int), sep@),
        decreases parts.len() - i,
    {
        if i > 0 {
            push_str(&mut out, sep);
        }
        push_str(&mut out, parts[i].as_str());
        assert(texts_of(parts@).take(i + 1).drop_last() =~= texts_of(parts@).take(i as int));
        i = i + 1;
    }
    assert(texts_of(parts@).take(parts@.len() as int) =~= texts_of(parts@));
    out
}

} // verus!

//! Character-level text handling shared by the configuration and command-line
//! parsers: whitespace, trimming, splitting, decimal numbers and ASCII case.
use vstd::prelude::*;
use vstd::utf8::is_ascii_chars;

verus! {

// ---------------------------------------------------------------------------
// Specifications
// ---------------------------------------------------------------------------

/// Unicode `White_Space`, the set that `char::is_whitespace` accepts.
pub open spec fn is_ws(c: char) -> bool {
    let u = c as u32;
    ||| 0x9 <= u <= 0xD
    ||| u == 0x20
    ||| u == 0x85
    ||| u == 0xA0
    ||| u == 0x1680
    ||| 0x2000 <= u <= 0x200A
    ||| u == 0x2028
    ||| u == 0x2029
    ||| u == 0x202F
    ||| u == 0x205F
    ||| u == 0x3000
}

/// `s` without its leading whitespace.
pub open spec fn trim_start(s: Seq<char>) -> Seq<char>
    decreases s.len(),
{
    if s.len() > 0 && is_ws(s[0]) {
        trim_start(s.drop_first())
    } else {
        s
    }
}

/// `s` without its trailing whitespace.
pub open spec fn trim_end(s: Seq<char>) -> Seq<char>
    decreases s.len(),
{
    if s.len() > 0 && is_ws(s.last()) {
        trim_end(s.drop_last())
    } else {
        s
    }
}

/// `s` without leading and trailing whitespace (what `str::trim` returns).
pub open spec fn trim(s: Seq<char>) -> Seq<char> {
    trim_end(trim_start(s))
}

/// Where a string is cut into pieces.
#[derive(Clone, Copy)]
pub enum Sep {
    /// At every occurrence of this character.
    Char(char),
    /// At every whitespace character.
    Whitespace,
}

impl Sep {
    pub open spec fn matches(self, c: char) -> bool {
        match self {
            Sep::Char(d) => c == d,
            Sep::Whitespace => is_ws(c),
        }
    }
}

/// The pieces of `s` between separators, empty pieces included: what
/// `str::split` yields for a single-character pattern. There is always at
/// least one piece.
pub open spec fn split_by(s: Seq<char>, sep: Sep) -> Seq<Seq<char>>
    decreases s.len(),
{
    if s.len() == 0 {
        seq![Seq::<char>::empty()]
    } else {
        let init = split_by(s.drop_last(), sep);
        if sep.matches(s.last()) {
            init.push(Seq::<char>::empty())
        } else {
            init.update(init.len() - 1, init.last().push(s.last()))
        }
    }
}

/// The trimmed pieces that are not empty after trimming, in order.
pub open spec fn trimmed_nonempty(pieces: Seq<Seq<char>>) -> Seq<Seq<char>>
    decreases pieces.len(),
{
    if pieces.len() == 0 {
        Seq::<Seq<char>>::empty()
    } else {
        let init = trimmed_nonempty(pieces.drop_last());
        let t = trim(pieces.last());
        if t.len() > 0 {
            init.push(t)
        } else {
            init
        }
    }
}

/// A separated list: split at `sep`, trim each piece, drop the empty ones.
pub open spec fn list_items(s: Seq<char>, sep: char) -> Seq<Seq<char>> {
    trimmed_nonempty(split_by(s, Sep::Char(sep)))
}

/// The words of `s`: the non-empty runs between whitespace (what
/// `str::split_whitespace` yields).
pub open spec fn words(s: Seq<char>) -> Seq<Seq<char>> {
    trimmed_nonempty(split_by(s, Sep::Whitespace))
}

pub open spec fn is_digit(c: char) -> bool {
    '0' as u32 <= c as u32 <= '9' as u32
}

pub open spec fn digit_value(c: char) -> nat {
    (c as u32 - '0' as u32) as nat
}

pub open spec fn all_digits(s: Seq<char>) -> bool {
    forall|i: int| 0 <= i < s.len() ==> #[trigger] is_digit(s[i])
}

/// The number that a string of decimal digits denotes.
pub open spec fn digits_value(s: Seq<char>) -> nat
    decreases s.len(),
{
    if s.len() == 0 {
        0
    } else {
        digits_value(s.drop_last()) * 10 + digit_value(s.last())
    }
}

/// What `str::parse::<u16>` accepts and returns: an optional `+`, then one or
/// more decimal digits whose value fits in 16 bits.
pub open spec fn parse_u16_spec(s: Seq<char>) -> Option<u16> {
    let d = if s.len() > 0 && s[0] == '+' {
        s.drop_first()
    } else {
        s
    };
    if d.len() > 0 && all_digits(d) && digits_value(d) <= 0xffff {
        Some(digits_value(d) as u16)
    } else {
        None
    }
}

pub open spec fn digit_char(d: nat) -> char {
    (('0' as u32) + d) as char
}

/// The shortest decimal rendering of `n` (what `Display` writes for an integer).
pub open spec fn decimal(n: nat) -> Seq<char>
    decreases n,
{
    if n < 10 {
        seq![digit_char(n)]
    } else {
        decimal(n / 10).push(digit_char(n % 10))
    }
}

pub open spec fn ascii_lower_char(c: char) -> char {
    if 'A' as u32 <= c as u32 <= 'Z' as u32 {
        ((c as u32) + 32) as char
    } else {
        c
    }
}

pub open spec fn ascii_upper_char(c: char) -> char {
    if 'a' as u32 <= c as u32 <= 'z' as u32 {
        ((c as u32) - 32) as char
    } else {
        c
    }
}

pub open spec fn ascii_lower(s: Seq<char>) -> Seq<char> {
    s.map_values(|c: char| ascii_lower_char(c))
}

pub open spec fn ascii_upper(s: Seq<char>) -> Seq<char> {
    s.map_values(|c: char| ascii_upper_char(c))
}

/// What `str::to_lowercase` returns for a string that is not all ASCII.
pub uninterp spec fn unicode_lowercase(s: Seq<char>) -> Seq<char>;

/// What `str::to_uppercase` returns for a string that is not all ASCII.
pub uninterp spec fn unicode_uppercase(s: Seq<char>) -> Seq<char>;

/// The lower-case form of a string (`str::to_lowercase`): on ASCII text the
/// Unicode mapping is the ASCII one.
pub open spec fn lowercase(s: Seq<char>) -> Seq<char> {
    if is_ascii_chars(s) {
        ascii_lower(s)
    } else {
        unicode_lowercase(s)
    }
}

/// The upper-case form of a string (`str::to_uppercase`): on ASCII text the
/// Unicode mapping is the ASCII one.
pub open spec fn uppercase(s: Seq<char>) -> Seq<char> {
    if is_ascii_chars(s) {
        ascii_upper(s)
    } else {
        unicode_uppercase(s)
    }
}

// ---------------------------------------------------------------------------
// Trusted items: std string functions that vstd does not specify
// ---------------------------------------------------------------------------

/// `String::push`: appends one character.
#[verifier::external_body]
pub(crate) fn push_char(s: &mut String, c: char)
    ensures
        final(s)@ == old(s)@.push(c),
{
    s.push(c)
}

/// `str::to_lowercase`. On ASCII input the Unicode lower-case mapping is the
/// ASCII one (letters `A`-`Z` become `a`-`z`, every other character stays);
/// on other input the result is named `unicode_lowercase`.
#[verifier::external_body]
pub(crate) fn to_lowercase(s: &str) -> (r: String)
    ensures
        is_ascii_chars(s@) ==> r@ == ascii_lower(s@),
        !is_ascii_chars(s@) ==> r@ == unicode_lowercase(s@),
{
    s.to_lowercase()
}

/// `str::to_uppercase`. On ASCII input the Unicode upper-case mapping is the
/// ASCII one (letters `a`-`z` become `A`-`Z`, every other character stays);
/// on other input the result is named `unicode_uppercase`.
#[verifier::external_body]
pub(crate) fn to_uppercase(s: &str) -> (r: String)
    ensures
        is_ascii_chars(s@) ==> r@ == ascii_upper(s@),
        !is_ascii_chars(s@) ==> r@ == unicode_uppercase(s@),
{
    s.to_uppercase()
}

// ---------------------------------------------------------------------------
// Lemmas
// ---------------------------------------------------------------------------

pub proof fn lemma_split_nonempty(s: Seq<char>, sep: Sep)
    ensures
        split_by(s, sep).len() >= 1,
    decreases s.len(),
{
    if s.len() > 0 {
        lemma_split_nonempty(s.drop_last(), sep);
    }
}

/// A string without any whitespace is its own trim.
pub proof fn lemma_trim_no_ws(s: Seq<char>)
    requires
        forall|i: int| 0 <= i < s.len() ==> !is_ws(#[trigger] s[i]),
    ensures
        trim(s) == s,
{
    if s.len() > 0 {
        assert(!is_ws(s[0]));
        assert(!is_ws(s.last()));
    }
}

/// Dropping a whitespace prefix does not change what `trim_start` gives.
proof fn lemma_trim_start_prefix(s: Seq<char>, lo: int)
    requires
        0 <= lo <= s.len(),
        forall|j: int| 0 <= j < lo ==> is_ws(#[trigger] s[j]),
    ensures
        trim_start(s) == trim_start(s.subrange(lo, s.len() as int)),
    decreases lo,
{
    if lo > 0 {
        assert(is_ws(s[0]));
        let t = s.drop_first();
        assert forall|j: int| 0 <= j < lo - 1 implies is_ws(#[trigger] t[j]) by {
            assert(t[j] == s[j + 1]);
        }
        lemma_trim_start_prefix(t, lo - 1);
        assert(t.subrange(lo - 1, t.len() as int) =~= s.subrange(lo, s.len() as int));
    } else {
        assert(s.subrange(0, s.len() as int) =~= s);
    }
}

/// Dropping a whitespace suffix does not change what `trim_end` gives.
proof fn lemma_trim_end_suffix(s: Seq<char>, hi: int)
    requires
        0 <= hi <= s.len(),
        forall|j: int| hi <= j < s.len() ==> is_ws(#[trigger] s[j]),
    ensures
        trim_end(s) == trim_end(s.subrange(0, hi)),
    decreases s.len() - hi,
{
    if hi < s.len() {
        assert(is_ws(s[s.len() - 1]));
        let t = s.drop_last();
        assert forall|j: int| hi <= j < t.len() implies is_ws(#[trigger] t[j]) by {
            assert(t[j] == s[j]);
        }
        lemma_trim_end_suffix(t, hi);
        assert(t.subrange(0, hi) =~= s.subrange(0, hi));
    } else {
        assert(s.subrange(0, hi) =~= s);
    }
}

proof fn lemma_digits_monotone(s: Seq<char>, k: int)
    requires
        0 <= k <= s.len(),
        all_digits(s),
    ensures
        digits_value(s.subrange(0, k)) <= digits_value(s),
    decreases s.len() - k,
{
    if k < s.len() {
        let t = s.drop_last();
        assert(all_digits(t)) by {
            assert forall|i: int| 0 <= i < t.len() implies is_digit(#[trigger] t[i]) by {
                assert(t[i] == s[i]);
            }
        }
        lemma_digits_monotone(t, k);
        assert(t.subrange(0, k) =~= s.subrange(0, k));
    } else {
        assert(s.subrange(0, k) =~= s);
    }
}

/// `trim_start` keeps a suffix of its input that is empty or starts with a
/// character that is not whitespace.
proof fn lemma_trim_start_shape(s: Seq<char>)
    ensures
        trim_start(s).len() <= s.len(),
        trim_start(s) == s.subrange(s.len() - trim_start(s).len(), s.len() as int),
        trim_start(s).len() == 0 || !is_ws(trim_start(s)[0]),
    decreases s.len(),
{
    if s.len() > 0 && is_ws(s[0]) {
        lemma_trim_start_shape(s.drop_first());
        let t = trim_start(s.drop_first());
        assert(s.drop_first().subrange(s.drop_first().len() - t.len(), s.drop_first().len() as int)
            =~= s.subrange(s.len() - t.len(), s.len() as int));
    } else {
        assert(s.subrange(0, s.len() as int) =~= s);
    }
}

/// `trim_end` keeps a prefix of its input that is empty or ends with a
/// character that is not whitespace.
proof fn lemma_trim_end_shape(s: Seq<char>)
    ensures
        trim_end(s).len() <= s.len(),
        trim_end(s) == s.subrange(0, trim_end(s).len() as int),
        trim_end(s).len() == 0 || !is_ws(trim_end(s).last()),
    decreases s.len(),
{
    if s.len() > 0 && is_ws(s.last()) {
        lemma_trim_end_shape(s.drop_last());
        let t = trim_end(s.drop_last());
        assert(s.drop_last().subrange(0, t.len() as int) =~= s.subrange(0, t.len() as int));
    } else {
        assert(s.subrange(0, s.len() as int) =~= s);
    }
}

/// A trimmed string is empty or starts and ends with non-whitespace.
pub proof fn lemma_trim_shape(s: Seq<char>)
    ensures
        trim(s).len() == 0 || (!is_ws(trim(s)[0]) && !is_ws(trim(s).last())),
{
    let a = trim_start(s);
    lemma_trim_start_shape(s);
    lemma_trim_end_shape(a);
    let b = trim_end(a);
    if b.len() > 0 {
        assert(b[0] == a.subrange(0, b.len() as int)[0]);
        assert(b[0] == a[0]);
    }
}

/// Trimming twice is trimming once.
pub proof fn lemma_trim_idempotent(s: Seq<char>)
    ensures
        trim(trim(s)) == trim(s),
{
    let t = trim(s);
    lemma_trim_shape(s);
    if t.len() > 0 {
        assert(trim_start(t) == t);
        assert(trim_end(t) == t);
    }
}

/// The items of a separated list are never empty and never begin or end with
/// whitespace.
pub proof fn lemma_list_items_trimmed(s: Seq<char>, sep: char)
    ensures
        forall|i: int|
            0 <= i < list_items(s, sep).len() ==> #[trigger] list_items(s, sep)[i].len() > 0
                && trim(list_items(s, sep)[i]) == list_items(s, sep)[i],
{
    lemma_trimmed_nonempty_clean(split_by(s, Sep::Char(sep)));
}

proof fn lemma_trimmed_nonempty_clean(pieces: Seq<Seq<char>>)
    ensures
        forall|i: int|
            0 <= i < trimmed_nonempty(pieces).len() ==> #[trigger] trimmed_nonempty(pieces)[i].len()
                > 0 && trim(trimmed_nonempty(pieces)[i]) == trimmed_nonempty(pieces)[i],
    decreases pieces.len(),
{
    if pieces.len() > 0 {
        lemma_trimmed_nonempty_clean(pieces.drop_last());
        lemma_trim_idempotent(pieces.last());
        let init = trimmed_nonempty(pieces.drop_last());
        let r = trimmed_nonempty(pieces);
        assert forall|i: int| 0 <= i < r.len() implies #[trigger] r[i].len() > 0 && trim(r[i])
            == r[i] by {
            if i < init.len() {
                assert(r[i] == init[i]);
            }
        }
    }
}

/// Every character of a trimmed string is a character of the string.
pub proof fn lemma_trim_within(s: Seq<char>, p: spec_fn(char) -> bool)
    requires
        forall|i: int| 0 <= i < s.len() ==> #[trigger] p(s[i]),
    ensures
        forall|i: int| 0 <= i < trim(s).len() ==> #[trigger] p(trim(s)[i]),
{
    let a = trim_start(s);
    lemma_trim_start_shape(s);
    lemma_trim_end_shape(a);
    let b = trim_end(a);
    let k = s.len() - a.len();
    assert forall|i: int| 0 <= i < b.len() implies #[trigger] p(b[i]) by {
        assert(b[i] == a.subrange(0, b.len() as int)[i]);
        assert(a[i] == s.subrange(k, s.len() as int)[i]);
        assert(p(s[k + i]));
    }
}

/// Changing the case of ASCII letters keeps whitespace and other characters.
proof fn lemma_case_keeps_ws()
    ensures
        forall|c: char| #[trigger] is_ws(ascii_lower_char(c)) == is_ws(c),
        forall|c: char| #[trigger] is_ws(ascii_upper_char(c)) == is_ws(c),
        forall|c: char|
            '\0' <= c <= '\u{7f}' ==> '\0' <= #[trigger] ascii_lower_char(c) <= '\u{7f}',
        forall|c: char|
            '\0' <= c <= '\u{7f}' ==> '\0' <= #[trigger] ascii_upper_char(c) <= '\u{7f}',
        forall|c: char| #[trigger] ascii_upper_char(ascii_lower_char(c)) == ascii_upper_char(c),
        forall|c: char| #[trigger] ascii_upper_char(ascii_upper_char(c)) == ascii_upper_char(c),
        forall|c: char| #[trigger] ascii_lower_char(ascii_upper_char(c)) == ascii_lower_char(c),
        forall|c: char| #[trigger] ascii_lower_char(ascii_lower_char(c)) == ascii_lower_char(c),
{
}

/// Trimming an ASCII string gives an ASCII string, and commutes with changing
/// the case of its letters.
pub proof fn lemma_trim_ascii_case(s: Seq<char>)
    requires
        is_ascii_chars(s),
    ensures
        is_ascii_chars(trim(s)),
        is_ascii_chars(ascii_lower(trim(s))),
        is_ascii_chars(ascii_upper(trim(s))),
        trim(ascii_lower(s)) == ascii_lower(trim(s)),
        trim(ascii_upper(s)) == ascii_upper(trim(s)),
        forall|c: char| #[trigger] ascii_upper_char(ascii_lower_char(c)) == ascii_upper_char(c),
        forall|c: char| #[trigger] ascii_upper_char(ascii_upper_char(c)) == ascii_upper_char(c),
        forall|c: char| #[trigger] ascii_lower_char(ascii_upper_char(c)) == ascii_lower_char(c),
        forall|c: char| #[trigger] ascii_lower_char(ascii_lower_char(c)) == ascii_lower_char(c),
{
    lemma_case_keeps_ws();
    let t = trim(s);
    let ascii = |c: char| '\0' <= c <= '\u{7f}';
    assert forall|i: int| 0 <= i < s.len() implies #[trigger] ascii(s[i]) by {}
    lemma_trim_within(s, ascii);
    assert forall|i: int| 0 <= i < t.len() implies '\0' <= #[trigger] t[i] <= '\u{7f}' by {
        assert(ascii(t[i]));
    }
    lemma_trim_map(s, |c: char| ascii_lower_char(c));
    lemma_trim_map(s, |c: char| ascii_upper_char(c));
}

/// A character map that keeps whitespace whitespace and other characters not
/// whitespace commutes with trimming.
pub proof fn lemma_trim_map(s: Seq<char>, f: spec_fn(char) -> char)
    requires
        forall|c: char| #[trigger] is_ws(f(c)) == is_ws(c),
    ensures
        trim(s.map_values(f)) == trim(s).map_values(f),
{
    lemma_trim_start_map(s, f);
    lemma_trim_end_map(trim_start(s), f);
}

proof fn lemma_trim_start_map(s: Seq<char>, f: spec_fn(char) -> char)
    requires
        forall|c: char| #[trigger] is_ws(f(c)) == is_ws(c),
    ensures
        trim_start(s.map_values(f)) == trim_start(s).map_values(f),
    decreases s.len(),
{
    let m = s.map_values(f);
    if s.len() > 0 {
        assert(m[0] == f(s[0]));
        assert(m.drop_first() =~= s.drop_first().map_values(f));
        lemma_trim_start_map(s.drop_first(), f);
    }
}

proof fn lemma_trim_end_map(s: Seq<char>, f: spec_fn(char) -> char)
    requires
        forall|c: char| #[trigger] is_ws(f(c)) == is_ws(c),
    ensures
        trim_end(s.map_values(f)) == trim_end(s).map_values(f),
    decreases s.len(),
{
    let m = s.map_values(f);
    if s.len() > 0 {
        assert(m.last() == f(s.last()));
        assert(m.drop_last() =~= s.drop_last().map_values(f));
        lemma_trim_end_map(s.drop_last(), f);
    }
}

/// The decimal rendering of `n` is a non-empty run of digits worth `n`.
pub proof fn lemma_decimal_digits(n: nat)
    ensures
        decimal(n).len() > 0,
        all_digits(decimal(n)),
        digits_value(decimal(n)) == n,
    decreases n,
{
    let d = digit_char(n % 10);
    assert(is_digit(d) && digit_value(d) == n % 10);
    if n >= 10 {
        lemma_decimal_digits(n / 10);
        let s = decimal(n / 10);
        let t = s.push(d);
        assert(t.drop_last() =~= s);
        assert(all_digits(t)) by {
            assert forall|i: int| 0 <= i < t.len() implies is_digit(#[trigger] t[i]) by {
                if i < s.len() {
                    assert(t[i] == s[i]);
                }
            }
        }
        assert(t.last() == d);
        assert(digits_value(t) == digits_value(s) * 10 + digit_value(d));
        assert((n / 10) * 10 + n % 10 == n);
        assert(decimal(n) == t);
    } else {
        assert(seq![d].drop_last() =~= Seq::<char>::empty());
        assert(decimal(n) == seq![d]);
        assert(n % 10 == n);
        let one = seq![d];
        assert(one.last() == d);
        assert(digits_value(one.drop_last()) == 0);
        assert(digits_value(one) == digit_value(d));
    }
}

/// A text without the separator is one piece.
pub proof fn lemma_split_no_sep(s: Seq<char>, sep: Sep)
    requires
        forall|i: int| 0 <= i < s.len() ==> !sep.matches(#[trigger] s[i]),
    ensures
        split_by(s, sep) == seq![s],
    decreases s.len(),
{
    if s.len() > 0 {
        lemma_split_no_sep(s.drop_last(), sep);
        assert(s.drop_last().push(s.last()) =~= s);
        assert(split_by(s, sep) =~= seq![s]);
    } else {
        assert(s =~= Seq::<char>::empty());
    }
}

/// A separator followed by a text without separators starts one more piece,
/// that text.
pub proof fn lemma_split_append(p: Seq<char>, d: char, q: Seq<char>)
    requires
        forall|i: int| 0 <= i < q.len() ==> #[trigger] q[i] != d,
    ensures
        split_by(p + seq![d] + q, Sep::Char(d)) == split_by(p, Sep::Char(d)).push(q),
    decreases q.len(),
{
    let s = p + seq![d] + q;
    if q.len() == 0 {
        assert(s.drop_last() =~= p);
        assert(q =~= Seq::<char>::empty());
    } else {
        lemma_split_append(p, d, q.drop_last());
        assert(s.drop_last() =~= p + seq![d] + q.drop_last());
        assert(s.last() == q.last());
        assert(q.drop_last().push(q.last()) =~= q);
        assert(split_by(s, Sep::Char(d)) =~= split_by(p, Sep::Char(d)).push(q));
    }
}

/// A number up to 65535 written in decimal parses back to the same number:
/// the port texts in the commands are the configured ports.
pub proof fn lemma_decimal_parses_back(n: u16)
    ensures
        parse_u16_spec(decimal(n as nat)) == Some(n),
{
    lemma_decimal_digits(n as nat);
    let s = decimal(n as nat);
    assert(is_digit(s[0]));
}

// ---------------------------------------------------------------------------
// Executable functions
// ---------------------------------------------------------------------------

/// The characters of `s`, in order.
pub fn chars_of(s: &str) -> (out: Vec<char>)
    ensures
        out@ == s@,
{
    let mut out: Vec<char> = Vec::new();
    for c in it: s.chars()
        invariant
            it.seq() == s@,
            out@ == it.seq().take(it.index() as int),
    {
        out.push(c);
    }
    out
}

/// Whether `c` is Unicode whitespace (`char::is_whitespace`).
pub fn is_whitespace(c: char) -> (b: bool)
    ensures
        b == is_ws(c),
{
    let u = c as u32;
    (0x9 <= u && u <= 0xD) || u == 0x20 || u == 0x85 || u == 0xA0 || u == 0x1680 || (0x2000 <= u
        && u <= 0x200A) || u == 0x2028 || u == 0x2029 || u == 0x202F || u == 0x205F || u == 0x3000
}

/// The string made of `v[lo..hi]`.
pub fn string_of(v: &Vec<char>, lo: usize, hi: usize) -> (out: String)
    requires
        lo <= hi <= v@.len(),
    ensures
        out@ == v@.subrange(lo as int, hi as int),
{
    let mut out = String::new();
    let mut i = lo;
    while i < hi
        invariant
            lo <= i <= hi <= v@.len(),
            out@ == v@.subrange(lo as int, i as int),
        decreases hi - i,
    {
        push_char(&mut out, v[i]);
        assert(v@.subrange(lo as int, i + 1) =~= v@.subrange(lo as int, i as int).push(v@[i as int]));
        i += 1;
    }
    out
}

/// The bounds of the trimmed part of `v[lo..hi]`.
pub fn trim_range(v: &Vec<char>, lo: usize, hi: usize) -> (r: (usize, usize))
    requires
        lo <= hi <= v@.len(),
    ensures
        lo <= r.0 <= r.1 <= hi,
        v@.subrange(r.0 as int, r.1 as int) == trim(v@.subrange(lo as int, hi as int)),
{
    let ghost s = v@.subrange(lo as int, hi as int);
    let mut a = lo;
    while a < hi && is_whitespace(v[a])
        invariant
            lo <= a <= hi <= v@.len(),
            s == v@.subrange(lo as int, hi as int),
            forall|j: int| lo <= j < a ==> is_ws(#[trigger] v@[j]),
        decreases hi - a,
    {
        a += 1;
    }
    proof {
        assert forall|j: int| 0 <= j < a - lo implies is_ws(#[trigger] s[j]) by {
            assert(s[j] == v@[lo + j]);
        }
        lemma_trim_start_prefix(s, a - lo);
        let t = s.subrange(a - lo, s.len() as int);
        assert(t =~= v@.subrange(a as int, hi as int));
        if t.len() > 0 {
            assert(t[0] == v@[a as int]);
        }
        assert(trim_start(t) == t);
    }
    let mut b = hi;
    while b > a && is_whitespace(v[b - 1])
        invariant
            lo <= a <= b <= hi <= v@.len(),
            forall|j: int| b <= j < hi ==> is_ws(#[trigger] v@[j]),
        decreases b - a,
    {
        b -= 1;
    }
    proof {
        let t = v@.subrange(a as int, hi as int);
        assert forall|j: int| b - a <= j < t.len() implies is_ws(#[trigger] t[j]) by {
            assert(t[j] == v@[a + j]);
        }
        lemma_trim_end_suffix(t, b - a);
        let u = t.subrange(0, b - a);
        assert(u =~= v@.subrange(a as int, b as int));
        if u.len() > 0 {
            assert(u.last() == v@[b - 1]);
        }
        assert(trim_end(u) == u);
    }
    (a, b)
}

/// `str::trim`: `s` without leading and trailing whitespace.
pub fn trim_str(s: &str) -> (out: String)
    ensures
        out@ == trim(s@),
{
    let v = chars_of(s);
    let (a, b) = trim_range(&v, 0, v.len());
    assert(v@.subrange(0, v@.len() as int) =~= v@);
    string_of(&v, a, b)
}

/// The pieces of `s` between separators (`str::split` with one character, or
/// the whitespace-separated pieces before empty ones are dropped).
pub fn split_str(s: &str, sep: Sep) -> (out: Vec<String>)
    ensures
        out.deep_view() == split_by(s@, sep),
{
    let v = chars_of(s);
    let mut out: Vec<String> = Vec::new();
    let mut start: usize = 0;
    let mut i: usize = 0;
    proof {
        assert(v@.take(0) =~= Seq::<char>::empty());
        assert(out.deep_view() =~= split_by(v@.take(0), sep).drop_last());
    }
    while i < v.len()
        invariant
            start <= i <= v@.len(),
            v@ == s@,
            split_by(v@.take(i as int), sep).len() >= 1,
            out.deep_view() == split_by(v@.take(i as int), sep).drop_last(),
            split_by(v@.take(i as int), sep).last() == v@.subrange(start as int, i as int),
        decreases v@.len() - i,
    {
        let ghost old_out = out.deep_view();
        let ghost prev = split_by(v@.take(i as int), sep);
        let c = v[i];
        let is_sep = match sep {
            Sep::Char(d) => c == d,
            Sep::Whitespace => is_whitespace(c),
        };
        let ghost next_t = v@.take(i + 1);
        assert(next_t.drop_last() =~= v@.take(i as int));
        assert(next_t.last() == c);
        if is_sep {
            let piece = string_of(&v, start, i);
            out.push(piece);
            start = i + 1;
            proof {
                let next = split_by(next_t, sep);
                assert(next == prev.push(Seq::<char>::empty()));
                assert(out.deep_view() =~= old_out.push(piece@));
                assert(next.drop_last() =~= prev);
                assert(prev =~= prev.drop_last().push(prev.last()));
                assert(v@.subrange(start as int, i + 1) =~= Seq::<char>::empty());
            }
        } else {
            proof {
                let next = split_by(next_t, sep);
                assert(next == prev.update(prev.len() - 1, prev.last().push(c)));
                assert(next.drop_last() =~= prev.drop_last());
                assert(v@.subrange(start as int, i + 1) =~= v@.subrange(start as int, i as int).push(c));
            }
        }
        i += 1;
    }
    let last = string_of(&v, start, v.len());
    let ghost before = out.deep_view();
    out.push(last);
    proof {
        let full = split_by(v@.take(v@.len() as int), sep);
        assert(v@.take(v@.len() as int) =~= v@);
        assert(out.deep_view() =~= before.push(last@));
        assert(full =~= full.drop_last().push(full.last()));
    }
    out
}

/// Trims every piece and keeps those that are not empty afterwards.
pub fn keep_trimmed_nonempty(pieces: &Vec<String>) -> (out: Vec<String>)
    ensures
        out.deep_view() == trimmed_nonempty(pieces.deep_view()),
{
    let mut out: Vec<String> = Vec::new();
    let mut i: usize = 0;
    assert(pieces.deep_view().take(0) =~= Seq::<Seq<char>>::empty());
    while i < pieces.len()
        invariant
            i <= pieces@.len(),
            out.deep_view() == trimmed_nonempty(pieces.deep_view().take(i as int)),
        decreases pieces@.len() - i,
    {
        let t = trim_str(pieces[i].as_str());
        let ghost before = out.deep_view();
        let ghost taken = pieces.deep_view().take(i + 1);
        assert(taken.drop_last() =~= pieces.deep_view().take(i as int));
        assert(taken.last() == pieces@[i as int]@);
        if !t.as_str().is_empty() {
            out.push(t);
            assert(out.deep_view() =~= before.push(t@));
        } else {
            assert(t@.len() == 0);
        }
        i += 1;
    }
    assert(pieces.deep_view().take(pieces@.len() as int) =~= pieces.deep_view());
    out
}

/// A separated list: split `s` at `sep`, trim the pieces, drop empty ones.
pub fn list_of(s: &str, sep: char) -> (out: Vec<String>)
    ensures
        out.deep_view() == list_items(s@, sep),
{
    let pieces = split_str(s, Sep::Char(sep));
    keep_trimmed_nonempty(&pieces)
}

/// `str::split_whitespace`: the words of `s`.
pub fn words_of(s: &str) -> (out: Vec<String>)
    ensures
        out.deep_view() == words(s@),
{
    let pieces = split_str(s, Sep::Whitespace);
    keep_trimmed_nonempty(&pieces)
}

/// `str::parse::<u16>`.
pub fn parse_u16(s: &str) -> (r: Option<u16>)
    ensures
        r == parse_u16_spec(s@),
{
    let v = chars_of(s);
    let start: usize = if v.len() > 0 && v[0] == '+' {
        1
    } else {
        0
    };
    let ghost d = v@.subrange(start as int, v@.len() as int);
    assert(d =~= (if v@.len() > 0 && v@[0] == '+' {
        v@.drop_first()
    } else {
        v@
    }));
    if start == v.len() {
        return None;
    }
    let mut value: u32 = 0;
    let mut i = start;
    while i < v.len()
        invariant
            start <= i <= v@.len(),
            start < v@.len(),
            v@ == s@,
            d == (if s@.len() > 0 && s@[0] == '+' {
                s@.drop_first()
            } else {
                s@
            }),
            d == v@.subrange(start as int, v@.len() as int),
            all_digits(v@.subrange(start as int, i as int)),
            value as nat == digits_value(v@.subrange(start as int, i as int)),
            value <= 0xffff,
        decreases v@.len() - i,
    {
        let c = v[i];
        let cu = c as u32;
        if cu < '0' as u32 || cu > '9' as u32 {
            proof {
                assert(d[i - start] == c);
                assert(!is_digit(d[i - start]));
                assert(!all_digits(d));
            }
            return None;
        }
        let ghost prefix = v@.subrange(start as int, i + 1);
        assert(prefix.drop_last() =~= v@.subrange(start as int, i as int));
        assert(prefix.last() == c);
        assert(all_digits(prefix)) by {
            assert forall|j: int| 0 <= j < prefix.len() implies is_digit(#[trigger] prefix[j]) by {
                if j < prefix.len() - 1 {
                    assert(prefix[j] == v@.subrange(start as int, i as int)[j]);
                }
            }
        }
        value = value * 10 + (cu - '0' as u32);
        if value > 0xffff {
            proof {
                if all_digits(d) {
                    assert(d.subrange(0, i + 1 - start) =~= prefix);
                    lemma_digits_monotone(d, i + 1 - start);
                    assert(digits_value(d) > 0xffff);
                }
                assert(parse_u16_spec(s@) is None);
            }
            return None;
        }
        i += 1;
    }
    assert(v@.subrange(start as int, i as int) =~= d);
    Some(value as u16)
}

/// The decimal rendering of `n` (`n.to_string()`).
pub fn decimal_string(n: u32) -> (out: String)
    ensures
        out@ == decimal(n as nat),
{
    let mut digits: Vec<char> = Vec::new();
    let mut m = n;
    // digits are produced least significant first
    while m >= 10
        invariant
            decimal(n as nat) == decimal(m as nat) + digits@.reverse(),
        decreases m,
    {
        let d = m % 10;
        let ghost old_digits = digits@;
        digits.push(((('0' as u32) + d) as u8) as char);
        proof {
            assert(((('0' as u32) + d) as u8) as char == digit_char(d as nat));
            assert(decimal(m as nat) == decimal((m / 10) as nat).push(digit_char(d as nat)));
            assert(digits@.reverse() =~= seq![digit_char(d as nat)] + old_digits.reverse());
            assert(decimal((m / 10) as nat).push(digit_char(d as nat)) + old_digits.reverse()
                =~= decimal((m / 10) as nat) + digits@.reverse());
        }
        m = m / 10;
    }
    let mut out = String::new();
    push_char(&mut out, ((('0' as u32) + m) as u8) as char);
    assert(((('0' as u32) + m) as u8) as char == digit_char(m as nat));
    let mut j = digits.len();
    while j > 0
        invariant
            j <= digits@.len(),
            out@ == decimal(m as nat) + digits@.reverse().take((digits@.len() - j) as int),
        decreases j,
    {
        j -= 1;
        push_char(&mut out, digits[j]);
        assert(digits@.reverse().take((digits@.len() - j) as int) =~= digits@.reverse().take(
            (digits@.len() - j - 1) as int,
        ).push(digits@[j as int]));
    }
    assert(digits@.reverse().take(digits@.len() as int) =~= digits@.reverse());
    out
}

/// Whether the string `s` spells exactly `lit`.
pub fn same_text(s: &str, lit: &str) -> (b: bool)
    ensures
        b == (s@ == lit@),
{
    let a = chars_of(s);
    let c = chars_of(lit);
    if a.len() != c.len() {
        return false;
    }
    let mut i: usize = 0;
    while i < a.len()
        invariant
            a@ == s@,
            c@ == lit@,
            a@.len() == c@.len(),
            i <= a@.len(),
            forall|j: int| 0 <= j < i ==> a@[j] == c@[j],
        decreases a@.len() - i,
    {
        if a[i] != c[i] {
            return false;
        }
        i += 1;
    }
    assert(a@ =~= c@);
    true
}

} // verus!

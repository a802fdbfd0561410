//! What chrono-english's date parser does with the characters of a text, as
//! far as it decides whether parsing the text can panic.
//!
//! The parser (`parser.rs`, `types.rs`) reads the text through scanlex's
//! scanner: words (`char::is_alphabetic` or `_`, then `char::is_alphanumeric`
//! or `_`), integers (runs of ASCII digits) and single characters, with
//! `char::is_whitespace` between them. It panics only where it slices a word
//! by bytes, unwraps the parse of a fraction of a second, overflows integer
//! arithmetic on a count, an hour or a UTC offset, or unwraps the move of the
//! reference time outside chrono's range. `supported_input` states these
//! places, by the position in the text that each depends on. Where telling
//! exactly would mean following the parser's whole grammar, it takes the
//! wider condition and says so: a `+` or `-` after anything that reads as
//! the seconds of a time is taken as the sign of an offset, a later word
//! `pm` as raising any number before it, and text after a `\0` (where the
//! scanner stops) is checked like the rest.

use vstd::prelude::*;

use crate::time_expression::ZonedDateTime;

verus! {

/// Whether `c` is one of the ASCII digits `0` to `9`.
pub open spec fn is_digit(c: char) -> bool {
    '0' <= c && c <= '9'
}

/// The code of `c`, with capital ASCII letters taken as small ones.
pub open spec fn folded(c: char) -> int {
    if 'A' <= c && c <= 'Z' {
        c as int + 32
    } else {
        c as int
    }
}

/// Whether std's `char::is_alphanumeric` holds of `c`.
pub uninterp spec fn unicode_alphanumeric(c: char) -> bool;

/// Whether std's `char::is_alphabetic` holds of `c`.
pub uninterp spec fn unicode_alphabetic(c: char) -> bool;

/// Whether std's `char::is_numeric` holds of `c`.
pub uninterp spec fn unicode_numeric(c: char) -> bool;

/// Whether std's `char::is_whitespace` holds of `c`.
pub uninterp spec fn unicode_whitespace(c: char) -> bool;

/// The text std's `str::to_lowercase` gives for `t`.
pub uninterp spec fn lowercase_text(t: Seq<char>) -> Seq<char>;

/// Calls `char::is_alphanumeric`. The contract claims only that the result
/// is `unicode_alphanumeric` of the character.
#[verifier::external_body]
fn char_is_alphanumeric(c: char) -> (b: bool)
    ensures
        b == unicode_alphanumeric(c),
{
    c.is_alphanumeric()
}

/// Calls `char::is_alphabetic`. The contract claims only that the result is
/// `unicode_alphabetic` of the character.
#[verifier::external_body]
fn char_is_alphabetic(c: char) -> (b: bool)
    ensures
        b == unicode_alphabetic(c),
{
    c.is_alphabetic()
}

/// Calls `char::is_numeric`. The contract claims only that the result is
/// `unicode_numeric` of the character.
#[verifier::external_body]
fn char_is_numeric(c: char) -> (b: bool)
    ensures
        b == unicode_numeric(c),
{
    c.is_numeric()
}

/// Calls `char::is_whitespace`. The contract claims only that the result is
/// `unicode_whitespace` of the character.
#[verifier::external_body]
fn char_is_whitespace(c: char) -> (b: bool)
    ensures
        b == unicode_whitespace(c),
{
    c.is_whitespace()
}

/// Calls `str::to_lowercase`. The contract claims only that the result is
/// `lowercase_text` of the text.
#[verifier::external_body]
fn text_to_lowercase(t: &str) -> (r: String)
    ensures
        r@ == lowercase_text(t@),
{
    t.to_lowercase()
}

/// The number of bytes of `c` in UTF-8.
pub open spec fn utf8_width(c: char) -> int {
    if (c as u32) < 0x80 {
        1
    } else if (c as u32) < 0x800 {
        2
    } else if (c as u32) < 0x10000 {
        3
    } else {
        4
    }
}

/// The number of bytes of `t` in UTF-8.
pub open spec fn byte_len(t: Seq<char>) -> int
    decreases t.len(),
{
    if t.len() == 0 {
        0
    } else {
        utf8_width(t[0]) + byte_len(t.drop_first())
    }
}

/// Whether byte `b` of `t` in UTF-8 is the start of a character or its end.
pub open spec fn boundary_at(t: Seq<char>, b: int) -> bool
    decreases t.len(),
{
    if b == 0 {
        true
    } else if b < 0 || t.len() == 0 {
        false
    } else {
        boundary_at(t.drop_first(), b - utf8_width(t[0]))
    }
}

/// The start of the whitespace that ends at `k`.
pub open spec fn ws_back(s: Seq<char>, k: int) -> int
    decreases k,
{
    if 0 < k <= s.len() && unicode_whitespace(s[k - 1]) {
        ws_back(s, k - 1)
    } else {
        k
    }
}

/// The end of the whitespace that starts at `j`.
pub open spec fn ws_fwd(s: Seq<char>, j: int) -> int
    decreases s.len() - j,
{
    if 0 <= j < s.len() && unicode_whitespace(s[j]) {
        ws_fwd(s, j + 1)
    } else {
        j
    }
}

/// Whether the scanner continues a word with `c`.
pub open spec fn is_ident_char(c: char) -> bool {
    unicode_alphanumeric(c) || c == '_'
}

/// Whether the scanner starts a word at `j`.
pub open spec fn starts_word(s: Seq<char>, j: int) -> bool {
    0 <= j < s.len() && (unicode_alphabetic(s[j]) || s[j] == '_')
}

/// The end of the run of word characters that starts at `j`.
pub open spec fn word_end(s: Seq<char>, j: int) -> int
    decreases s.len() - j,
{
    if 0 <= j < s.len() && is_ident_char(s[j]) {
        word_end(s, j + 1)
    } else {
        j
    }
}

/// The word the scanner reads at `k`: its first character, then the word
/// characters after it.
pub open spec fn word_at(s: Seq<char>, k: int) -> Seq<char> {
    s.subrange(k, word_end(s, k + 1))
}

/// Whether the word at `k` is `w`.
pub open spec fn word_is(s: Seq<char>, k: int, w: Seq<char>) -> bool {
    &&& word_end(s, k + 1) == k + w.len()
    &&& forall|i: int| 0 <= i < w.len() ==> s[k + i] == w[i]
}

proof fn lemma_word_end_bounds(s: Seq<char>, j: int)
    requires
        0 <= j <= s.len(),
    ensures
        j <= word_end(s, j) <= s.len(),
    decreases s.len() - j,
{
    if j < s.len() && is_ident_char(s[j]) {
        lemma_word_end_bounds(s, j + 1);
    }
}

proof fn lemma_byte_len_nonneg(t: Seq<char>)
    ensures
        byte_len(t) >= 0,
    decreases t.len(),
{
    if t.len() > 0 {
        lemma_byte_len_nonneg(t.drop_first());
    }
}

/// The characters of `t`.
fn chars_of(t: &str) -> (r: Vec<char>)
    ensures
        r@ == t@,
{
    let n = t.unicode_len();
    let mut r: Vec<char> = Vec::new();
    let mut i: usize = 0;
    while i < n
        invariant
            n == t@.len(),
            i <= n,
            r@ == t@.take(i as int),
        decreases n - i,
    {
        r.push(t.get_char(i));
        proof {
            assert(r@ =~= t@.take(i + 1));
        }
        i += 1;
    }
    proof {
        assert(t@.take(n as int) =~= t@);
    }
    r
}

/// Computes `utf8_width`.
fn width_of(c: char) -> (w: u64)
    ensures
        w == utf8_width(c),
{
    let x = c as u32;
    if x < 0x80 {
        1
    } else if x < 0x800 {
        2
    } else if x < 0x10000 {
        3
    } else {
        4
    }
}

/// Whether `t` has at least three bytes in UTF-8.
fn at_least_three_bytes(t: &Vec<char>) -> (b: bool)
    ensures
        b == (byte_len(t@) >= 3),
{
    let mut acc: u64 = 0;
    let mut i: usize = 0;
    proof {
        assert(t@.skip(0) =~= t@);
    }
    while i < t.len()
        invariant
            i <= t.len(),
            acc < 3,
            byte_len(t@) == acc + byte_len(t@.skip(i as int)),
        decreases t.len() - i,
    {
        proof {
            assert(t@.skip(i as int).drop_first() =~= t@.skip(i + 1));
        }
        acc = acc + width_of(t[i]);
        i += 1;
        if acc >= 3 {
            proof {
                lemma_byte_len_nonneg(t@.skip(i as int));
            }
            return true;
        }
    }
    proof {
        assert(t@.skip(i as int) =~= Seq::<char>::empty());
    }
    false
}

/// Computes `boundary_at` for a byte `b` of at most 3.
fn is_boundary(t: &Vec<char>, b: u64) -> (r: bool)
    requires
        b <= 3,
    ensures
        r == boundary_at(t@, b as int),
{
    let mut rem = b;
    let mut i: usize = 0;
    proof {
        assert(t@.skip(0) =~= t@);
    }
    while i < t.len() && rem > 0
        invariant
            i <= t.len(),
            rem <= 3,
            boundary_at(t@, b as int) == boundary_at(t@.skip(i as int), rem as int),
        decreases t.len() - i,
    {
        let w = width_of(t[i]);
        proof {
            assert(t@.skip(i as int).drop_first() =~= t@.skip(i + 1));
        }
        if w > rem {
            proof {
                assert(!boundary_at(t@.skip(i + 1), rem as int - w as int));
            }
            return false;
        }
        rem = rem - w;
        i += 1;
    }
    if rem > 0 {
        proof {
            assert(t@.skip(i as int) =~= Seq::<char>::empty());
        }
    }
    rem == 0
}

/// Computes `ws_back`.
fn ws_back_of(v: &Vec<char>, k: usize) -> (r: usize)
    requires
        k <= v@.len(),
    ensures
        r == ws_back(v@, k as int),
        r <= k,
{
    let mut j = k;
    let mut go = j > 0 && char_is_whitespace(v[j - 1]);
    while go
        invariant
            j <= k,
            k <= v@.len(),
            ws_back(v@, j as int) == ws_back(v@, k as int),
            go == (j > 0 && unicode_whitespace(v@[j - 1])),
        decreases j,
    {
        j -= 1;
        go = j > 0 && char_is_whitespace(v[j - 1]);
    }
    j
}

/// Computes `ws_fwd`.
fn ws_fwd_of(v: &Vec<char>, j: usize) -> (r: usize)
    requires
        j <= v@.len(),
    ensures
        r == ws_fwd(v@, j as int),
        j <= r <= v@.len(),
{
    let mut k = j;
    let mut go = k < v.len() && char_is_whitespace(v[k]);
    while go
        invariant
            j <= k <= v@.len(),
            v@.len() == v.len(),
            ws_fwd(v@, k as int) == ws_fwd(v@, j as int),
            go == (k < v@.len() && unicode_whitespace(v@[k as int])),
        decreases v@.len() - k,
    {
        k += 1;
        go = k < v.len() && char_is_whitespace(v[k]);
    }
    k
}

/// Whether the scanner continues a word with `c`.
fn ident_char(c: char) -> (b: bool)
    ensures
        b == is_ident_char(c),
{
    char_is_alphanumeric(c) || c == '_'
}

/// Whether the scanner starts a word at `j`.
fn word_starts(v: &Vec<char>, j: usize) -> (b: bool)
    ensures
        b == starts_word(v@, j as int),
{
    j < v.len() && (char_is_alphabetic(v[j]) || v[j] == '_')
}

/// Computes `word_end`.
fn word_end_of(v: &Vec<char>, j: usize) -> (r: usize)
    requires
        j <= v@.len(),
    ensures
        r == word_end(v@, j as int),
        j <= r <= v@.len(),
{
    let mut k = j;
    let mut go = k < v.len() && ident_char(v[k]);
    while go
        invariant
            j <= k <= v@.len(),
            v@.len() == v.len(),
            word_end(v@, k as int) == word_end(v@, j as int),
            go == (k < v@.len() && is_ident_char(v@[k as int])),
        decreases v@.len() - k,
    {
        k += 1;
        go = k < v.len() && ident_char(v[k]);
    }
    k
}

/// Whether the word at `k`, which ends at `we`, is `w`.
fn word_matches(v: &Vec<char>, k: usize, we: usize, w: &Vec<char>) -> (b: bool)
    requires
        k < v@.len(),
        we == word_end(v@, k + 1),
    ensures
        b == word_is(v@, k as int, w@),
{
    proof {
        lemma_word_end_bounds(v@, k + 1);
    }
    if we - k != w.len() {
        return false;
    }
    let mut i: usize = 0;
    while i < w.len()
        invariant
            i <= w@.len(),
            k + w@.len() == we,
            we <= v@.len(),
            forall|m: int| 0 <= m < i ==> v@[k + m] == w@[m],
        decreases w@.len() - i,
    {
        if v[k + i] != w[i] {
            return false;
        }
        i += 1;
    }
    true
}

/// The lowercase of the word from `k` to `we` of `text`.
fn lowercase_word(text: &str, k: usize, we: usize) -> (r: Vec<char>)
    requires
        k <= we <= text@.len(),
    ensures
        r@ == lowercase_text(text@.subrange(k as int, we as int)),
{
    let w = text.substring_char(k, we);
    let l = text_to_lowercase(w);
    chars_of(l.as_str())
}

/// Whether `-` stands just before `j` with only whitespace before it: the
/// sign the parser reads before a count (`-2 days`).
pub open spec fn lead_minus(s: Seq<char>, j: int) -> bool {
    0 < j <= s.len() && s[j - 1] == '-' && ws_back(s, j - 1) == 0
}

/// Whether only whitespace, or a leading `-`, stands before `j`.
pub open spec fn lead_ctx(s: Seq<char>, j: int) -> bool {
    j == 0 || lead_minus(s, j)
}

/// Whether `next` or `last` stands at `p`.
pub open spec fn direction_at(s: Seq<char>, p: int) -> bool {
    &&& 0 <= p && p + 4 <= s.len()
    &&& {
        ||| s[p] == 'n' && s[p + 1] == 'e' && s[p + 2] == 'x' && s[p + 3] == 't'
        ||| s[p] == 'l' && s[p + 1] == 'a' && s[p + 2] == 's' && s[p + 3] == 't'
    }
}

/// Whether the token at `k` is the first one the parser reads as a date:
/// the first of the text, after a leading `-`, or after a leading `next` or
/// `last`.
pub open spec fn lead(s: Seq<char>, k: int) -> bool {
    let j = ws_back(s, k);
    ||| lead_ctx(s, j)
    ||| j < k && direction_at(s, j - 4) && lead_ctx(s, ws_back(s, j - 4))
}

/// For a token at a `lead` position, whether a leading `-` comes before it.
pub open spec fn lead_sign(s: Seq<char>, k: int) -> bool {
    let j = ws_back(s, k);
    if lead_ctx(s, j) {
        lead_minus(s, j)
    } else {
        lead_minus(s, ws_back(s, j - 4))
    }
}

/// Computes `lead_minus`.
fn lead_minus_at(v: &Vec<char>, j: usize) -> (b: bool)
    requires
        j <= v@.len(),
    ensures
        b == lead_minus(v@, j as int),
{
    j > 0 && v[j - 1] == '-' && ws_back_of(v, j - 1) == 0
}

/// Computes `lead` and, where it holds, `lead_sign`.
fn lead_at(v: &Vec<char>, k: usize) -> (r: (bool, bool))
    requires
        k <= v@.len(),
    ensures
        r.0 == lead(v@, k as int),
        r.0 ==> r.1 == lead_sign(v@, k as int),
{
    let j = ws_back_of(v, k);
    let m = lead_minus_at(v, j);
    if j == 0 || m {
        return (true, m);
    }
    if j < k && j >= 4 && ((v[j - 4] == 'n' && v[j - 3] == 'e' && v[j - 2] == 'x' && v[j - 1]
        == 't') || (v[j - 4] == 'l' && v[j - 3] == 'a' && v[j - 2] == 's' && v[j - 1] == 't')) {
        let j2 = ws_back_of(v, j - 4);
        let m2 = lead_minus_at(v, j2);
        return (j2 == 0 || m2, m2);
    }
    (false, false)
}

/// The first and last second of chrono's range of date-times.
pub open spec fn chrono_min_timestamp() -> int {
    -8_334_601_315_200
}

pub open spec fn chrono_max_timestamp() -> int {
    8_210_266_876_799
}

/// Whether slicing the lowercased word `lw` as the parser does panics. It
/// takes `&lw[0..3]` of a word of three bytes or more (`week_day`,
/// `month_name` and `time_unit` in `types.rs`), and, for the word after a
/// count, `&lw[0..1]` of a shorter one (`time_unit`); slicing inside a
/// character panics.
pub open spec fn slice_panics(lw: Seq<char>, after_count: bool) -> bool {
    ||| byte_len(lw) >= 3 && !boundary_at(lw, 3)
    ||| after_count && byte_len(lw) < 3 && !boundary_at(lw, 1)
}

/// Whether the word at `k` is safe to parse: where the parser reads it as
/// the first word of a date, lowercased, its slicing does not panic; and
/// `yesterday` and `tomorrow`, which move the reference time by a day
/// (`checked_add_signed(..).unwrap()` in `types.rs`), keep it in range.
pub open spec fn word_ok(s: Seq<char>, k: int, now: ZonedDateTime) -> bool {
    (starts_word(s, k) && lead(s, k)) ==> {
        &&& !slice_panics(lowercase_text(word_at(s, k)), false)
        &&& lead_ctx(s, ws_back(s, k)) && word_is(s, k, seq!['y', 'e', 's', 't', 'e', 'r', 'd', 'a', 'y'])
            ==> chrono_min_timestamp() <= now.timestamp - 86_400
        &&& lead_ctx(s, ws_back(s, k)) && word_is(s, k, seq!['t', 'o', 'm', 'o', 'r', 'r', 'o', 'w'])
            ==> now.timestamp + 86_400 <= chrono_max_timestamp()
    }
}

/// Where the run of ASCII digits that ends at `s[i]` starts.
pub open spec fn run_start(s: Seq<char>, i: int) -> int
    decreases i,
{
    if 0 < i <= s.len() && is_digit(s[i - 1]) {
        run_start(s, i - 1)
    } else {
        i
    }
}

/// Whether the digits at `k` follow (after whitespace) a `:` that follows
/// (after whitespace) a digit: they can be the minutes of a time.
pub open spec fn minute_like(s: Seq<char>, k: int) -> bool {
    let c = ws_back(s, k) - 1;
    &&& 0 <= c < s.len()
    &&& s[c] == ':'
    &&& {
        let e = ws_back(s, c);
        e > 0 && is_digit(s[e - 1])
    }
}

/// Whether the digits at `k` can be the seconds of a time: they follow a
/// `:` that follows minutes.
pub open spec fn seconds_like(s: Seq<char>, k: int) -> bool {
    let c = ws_back(s, k) - 1;
    &&& 0 <= c < s.len()
    &&& s[c] == ':'
    &&& {
        let e = ws_back(s, c);
        e > 0 && is_digit(s[e - 1]) && minute_like(s, run_start(s, e - 1))
    }
}

/// Whether the `.` at `p` can start the fraction of a second of a time: it
/// follows seconds.
pub open spec fn fraction_point(s: Seq<char>, p: int) -> bool {
    &&& 0 <= p < s.len()
    &&& s[p] == '.'
    &&& {
        let e = ws_back(s, p);
        e > 0 && is_digit(s[e - 1]) && seconds_like(s, run_start(s, e - 1))
    }
}

/// Whether every character of the run of `char::is_numeric` characters
/// that starts at `j` is an ASCII digit.
pub open spec fn numeric_digits(s: Seq<char>, j: int) -> bool
    decreases s.len() - j,
{
    if 0 <= j < s.len() && unicode_numeric(s[j]) {
        is_digit(s[j]) && numeric_digits(s, j + 1)
    } else {
        true
    }
}

/// Whether the fraction after a `.` that ends at `q` parses. The scanner
/// (`grab_while`) takes the character at `q` without testing it (unless it
/// is `\0`, its mark of the end) and the `char::is_numeric` characters after
/// it; the parser unwraps `("0." + fraction).parse::<f64>()` (`parser.rs`).
/// That parses when the fraction is empty (the parser then reports an
/// error), is ASCII digits, or is an exponent `e` or `E` with ASCII digits.
pub open spec fn fraction_parses(s: Seq<char>, q: int) -> bool {
    q >= s.len() || {
        let c = s[q];
        if c == '\0' || is_digit(c) {
            numeric_digits(s, q + 1)
        } else if c == 'e' || c == 'E' {
            q + 1 < s.len() && unicode_numeric(s[q + 1]) && numeric_digits(s, q + 1)
        } else {
            false
        }
    }
}

/// Whether the position `p` is safe for fractions of a second.
pub open spec fn point_ok(s: Seq<char>, p: int) -> bool {
    fraction_point(s, p) ==> fraction_parses(s, p + 1)
}

/// Computes `slice_panics`.
fn slicing_panics(lw: &Vec<char>, after_count: bool) -> (b: bool)
    ensures
        b == slice_panics(lw@, after_count),
{
    let long = at_least_three_bytes(lw);
    (long && !is_boundary(lw, 3)) || (after_count && !long && !is_boundary(lw, 1))
}

/// Computes `word_ok`.
fn word_safe(text: &str, v: &Vec<char>, k: usize, now: ZonedDateTime) -> (b: bool)
    requires
        v@ == text@,
        k < v.len(),
        -9_000_000_000_000 <= now.timestamp <= 9_000_000_000_000,
    ensures
        b == word_ok(v@, k as int, now),
{
    if !word_starts(v, k) {
        return true;
    }
    let (l, _) = lead_at(v, k);
    if !l {
        return true;
    }
    let we = word_end_of(v, k + 1);
    let lw = lowercase_word(text, k, we);
    if slicing_panics(&lw, false) {
        return false;
    }
    let j = ws_back_of(v, k);
    let at_start = j == 0 || lead_minus_at(v, j);
    let yesterday = vec!['y', 'e', 's', 't', 'e', 'r', 'd', 'a', 'y'];
    let tomorrow = vec!['t', 'o', 'm', 'o', 'r', 'r', 'o', 'w'];
    proof {
        assert(yesterday@ =~= seq!['y', 'e', 's', 't', 'e', 'r', 'd', 'a', 'y']);
        assert(tomorrow@ =~= seq!['t', 'o', 'm', 'o', 'r', 'r', 'o', 'w']);
    }
    if at_start && word_matches(v, k, we, &yesterday) && now.timestamp - 86_400
        < -8_334_601_315_200 {
        return false;
    }
    if at_start && word_matches(v, k, we, &tomorrow) && now.timestamp + 86_400
        > 8_210_266_876_799 {
        return false;
    }
    true
}

/// Computes `run_start`.
fn run_start_of(v: &Vec<char>, i: usize) -> (r: usize)
    requires
        i <= v@.len(),
    ensures
        r == run_start(v@, i as int),
        r <= i,
        forall|j: int| r <= j < i ==> is_digit(#[trigger] v@[j]),
{
    let mut k = i;
    let mut go = k > 0 && char_is_digit(v[k - 1]);
    while go
        invariant
            k <= i <= v@.len(),
            run_start(v@, k as int) == run_start(v@, i as int),
            go == (k > 0 && is_digit(v@[k - 1])),
            forall|j: int| k <= j < i ==> is_digit(#[trigger] v@[j]),
        decreases k,
    {
        k -= 1;
        go = k > 0 && char_is_digit(v[k - 1]);
    }
    k
}

/// Whether `c` is an ASCII digit.
fn char_is_digit(c: char) -> (b: bool)
    ensures
        b == is_digit(c),
{
    '0' <= c && c <= '9'
}

/// Computes `minute_like`.
fn minute_like_at(v: &Vec<char>, k: usize) -> (b: bool)
    requires
        k <= v@.len(),
    ensures
        b == minute_like(v@, k as int),
{
    let j = ws_back_of(v, k);
    if j == 0 || v[j - 1] != ':' {
        return false;
    }
    let e = ws_back_of(v, j - 1);
    e > 0 && char_is_digit(v[e - 1])
}

/// Computes `seconds_like`.
fn seconds_like_at(v: &Vec<char>, k: usize) -> (b: bool)
    requires
        k <= v@.len(),
    ensures
        b == seconds_like(v@, k as int),
{
    let j = ws_back_of(v, k);
    if j == 0 || v[j - 1] != ':' {
        return false;
    }
    let e = ws_back_of(v, j - 1);
    if !(e > 0 && char_is_digit(v[e - 1])) {
        return false;
    }
    let r = run_start_of(v, e - 1);
    minute_like_at(v, r)
}

/// Computes `fraction_point`.
fn fraction_point_at(v: &Vec<char>, p: usize) -> (b: bool)
    requires
        p < v@.len(),
    ensures
        b == fraction_point(v@, p as int),
{
    if v[p] != '.' {
        return false;
    }
    let e = ws_back_of(v, p);
    if !(e > 0 && char_is_digit(v[e - 1])) {
        return false;
    }
    let r = run_start_of(v, e - 1);
    seconds_like_at(v, r)
}

/// Computes `numeric_digits`.
fn numeric_digits_from(v: &Vec<char>, j: usize) -> (b: bool)
    requires
        j <= v@.len(),
    ensures
        b == numeric_digits(v@, j as int),
{
    let mut i = j;
    while i < v.len() && char_is_numeric(v[i])
        invariant
            j <= i <= v@.len(),
            v@.len() == v.len(),
            numeric_digits(v@, j as int) == numeric_digits(v@, i as int),
        decreases v@.len() - i,
    {
        if !char_is_digit(v[i]) {
            return false;
        }
        i += 1;
    }
    true
}

/// Computes `fraction_parses`.
fn fraction_parses_at(v: &Vec<char>, q: usize) -> (b: bool)
    requires
        q <= v@.len(),
    ensures
        b == fraction_parses(v@, q as int),
{
    if q >= v.len() {
        return true;
    }
    let c = v[q];
    if c == '\0' || char_is_digit(c) {
        numeric_digits_from(v, q + 1)
    } else if c == 'e' || c == 'E' {
        q + 1 < v.len() && char_is_numeric(v[q + 1]) && numeric_digits_from(v, q + 1)
    } else {
        false
    }
}

/// The value of a string of ASCII digits, most significant first.
pub open spec fn digits_value(t: Seq<char>) -> nat
    decreases t.len(),
{
    if t.len() == 0 {
        0
    } else {
        digits_value(t.drop_last()) * 10 + ((t.last() as int - 48) as nat)
    }
}

/// `x`, or 2^32 where `x` is larger.
pub open spec fn capped(x: nat) -> nat {
    if x < 4_294_967_296 {
        x
    } else {
        4_294_967_296
    }
}

/// Whether the digits starting at `k` follow a `.` that follows a digit:
/// the minutes of a time such as `8.30`, or a fraction of a second. The
/// parser never reads them as an hour.
pub open spec fn after_decimal_point(s: Seq<char>, k: int) -> bool {
    k >= 2 && s[k - 1] == '.' && is_digit(s[k - 2])
}

/// The unit that `time_unit` (`types.rs`) finds in the lowercased word
/// `lw`, as a kind (1 for a number of seconds, 2 for a number of months, 0
/// for none) and that number: by the first byte of a word shorter than three
/// bytes, else by its first three.
pub open spec fn unit_of(lw: Seq<char>) -> (int, int) {
    if byte_len(lw) < 3 {
        if lw.len() >= 1 {
            let c = lw[0];
            if c == 's' {
                (1, 1)
            } else if c == 'm' {
                (1, 60)
            } else if c == 'h' {
                (1, 3_600)
            } else if c == 'd' {
                (1, 86_400)
            } else if c == 'w' {
                (1, 604_800)
            } else if c == 'y' {
                (2, 12)
            } else {
                (0, 0)
            }
        } else {
            (0, 0)
        }
    } else if lw.len() >= 3 {
        let (a, b, c) = (lw[0], lw[1], lw[2]);
        if a == 's' && b == 'e' && c == 'c' {
            (1, 1)
        } else if a == 'm' && b == 'i' && c == 'n' {
            (1, 60)
        } else if a == 'h' && b == 'o' && c == 'u' {
            (1, 3_600)
        } else if a == 'd' && b == 'a' && c == 'y' {
            (1, 86_400)
        } else if a == 'w' && b == 'e' && c == 'e' {
            (1, 604_800)
        } else if a == 'm' && b == 'o' && c == 'n' {
            (2, 1)
        } else if a == 'y' && b == 'e' && c == 'a' {
            (2, 12)
        } else {
            (0, 0)
        }
    } else {
        (0, 0)
    }
}

/// Whether moving `now` by the count `v` (at most `u32::MAX`) of a unit of
/// the given kind and amount panics, backwards if `neg`. The parser turns the
/// count into an `i32` (`n as i32`, wrapping) and negates it for `ago` or a
/// leading `-` (`parser.rs`). A number of seconds moves the reference time
/// through `checked_add_signed(..).unwrap()`, which panics outside chrono's
/// range; a number of months is multiplied by the months of the unit and
/// added to the current month (counted from 0, in the reference time's
/// offset) in `i32`, and a negative result is taken from 12 (`types.rs`).
pub open spec fn count_panics(v: int, kind: int, amount: int, neg: bool, now: ZonedDateTime) -> bool {
    let n = if v < 2_147_483_648 {
        v
    } else {
        v - 4_294_967_296
    };
    if neg && n == -2_147_483_648 {
        true
    } else {
        let k = if neg {
            -n
        } else {
            n
        };
        if kind == 1 {
            let t = now.timestamp + k * amount;
            !(chrono_min_timestamp() <= t <= chrono_max_timestamp())
        } else if kind == 2 {
            let delta = amount * k;
            let month = chrono_month0(now.timestamp, now.utc_offset) + delta;
            ||| !(-2_147_483_648 <= delta <= 2_147_483_647)
            ||| month > 2_147_483_647
            ||| month < 0 && 12 - month > 2_147_483_647
        } else {
            false
        }
    }
}

/// Whether the number at `st..e` is safe as a count: where the parser reads
/// it as the first number of a date followed by a word, the word's slicing
/// does not panic, and the move by the count does not either. The move
/// happens after a leading `-`, before `ago`, and where no word follows.
pub open spec fn count_ok(s: Seq<char>, st: int, e: int, now: ZonedDateTime) -> bool {
    let v = digits_value(s.subrange(st, e));
    let w = ws_fwd(s, e);
    (lead(s, st) && v <= 4_294_967_295 && starts_word(s, w)) ==> {
        let lw = lowercase_text(word_at(s, w));
        let a = ws_fwd(s, word_end(s, w + 1));
        let ago = starts_word(s, a) && word_is(s, a, seq!['a', 'g', 'o']);
        let sign = lead_sign(s, st);
        &&& !slice_panics(lw, true)
        &&& (sign || !starts_word(s, a) || ago) ==> !count_panics(
            v as int,
            unit_of(lw).0,
            unit_of(lw).1,
            sign || ago,
            now,
        )
    }
}

/// The start of the run of `char::is_numeric` characters that ends at `e`.
pub open spec fn numeric_back(s: Seq<char>, e: int) -> int
    decreases e,
{
    if 0 < e <= s.len() && unicode_numeric(s[e - 1]) {
        numeric_back(s, e - 1)
    } else {
        e
    }
}

/// Whether a fraction of a second can end at `e`: a `fraction_point`, the
/// character after it, and `char::is_numeric` characters up to `e`.
pub open spec fn fraction_before(s: Seq<char>, e: int) -> bool {
    let m = numeric_back(s, e);
    ||| 1 <= m < e && s[m - 1] == '.' && fraction_point(s, m - 1)
    ||| 2 <= m && s[m - 2] == '.' && fraction_point(s, m - 2)
}

/// Whether the `+` or `-` at `p` can be the sign of a UTC offset: it
/// follows the seconds of a time, or their fraction (`parser.rs`).
pub open spec fn offset_sign(s: Seq<char>, p: int) -> bool {
    &&& 0 <= p < s.len()
    &&& (s[p] == '+' || s[p] == '-')
    &&& {
        let e = ws_back(s, p);
        ||| e > 0 && is_digit(s[e - 1]) && seconds_like(s, run_start(s, e - 1))
        ||| fraction_before(s, e)
    }
}

/// Whether the number at `k` can be the hours (or hours and minutes) of a
/// UTC offset.
pub open spec fn offset_hour_run(s: Seq<char>, k: int) -> bool {
    let j = ws_back(s, k);
    j > 0 && offset_sign(s, j - 1)
}

/// Whether the number at `st..e` is safe as an offset without `:` such as
/// `0530`: the parser computes `60 * (minute + 60 * hour)` in `u32` from its
/// last two digits and the rest (`parser.rs`).
pub open spec fn offset_hour_ok(s: Seq<char>, st: int, e: int) -> bool {
    let v = digits_value(s.subrange(st, e));
    (offset_hour_run(s, st) && !(e < s.len() && s[e] == ':') && v <= 4_294_967_295) ==> 60 * (v
        % 100 + 60 * (v / 100)) <= 4_294_967_295
}

/// Whether the number at `st..e` is safe as the minutes of an offset such
/// as `05:30`, with the hours just before its `:`: `60 * (minute + 60 *
/// hour)` in `u32`.
pub open spec fn offset_minute_ok(s: Seq<char>, st: int, e: int) -> bool {
    let v = digits_value(s.subrange(st, e));
    let j = ws_back(s, st);
    (j >= 2 && s[j - 1] == ':' && is_digit(s[j - 2]) && offset_hour_run(s, run_start(s, j - 2)))
        ==> {
        let h = digits_value(s.subrange(run_start(s, j - 2), j - 1));
        (h <= 4_294_967_295 && v <= 4_294_967_295) ==> 60 * (v + 60 * h) <= 4_294_967_295
    }
}

/// Whether the word at `a` is `pm`, as read or lowercased.
pub open spec fn pm_word_at(s: Seq<char>, a: int) -> bool {
    &&& starts_word(s, a)
    &&& word_is(s, a, seq!['p', 'm']) || lowercase_text(word_at(s, a)) == seq!['p', 'm']
}

/// Whether the number at `st..e` is safe as an hour: the parser adds 12 to
/// an hour followed by the word `pm`, in `u32` (`am_pm` in `parser.rs`), so
/// a number that such a word follows anywhere, and that is not minutes or a
/// fraction, is at most `u32::MAX - 12`.
pub open spec fn pm_ok(s: Seq<char>, st: int, e: int) -> bool {
    (!after_decimal_point(s, st) && exists|a: int| e <= a && #[trigger] pm_word_at(s, a))
        ==> digits_value(s.subrange(st, e)) <= 4_294_967_283
}

/// Whether the number at `st..e` is safe in each way the parser can read it.
pub open spec fn number_ok(s: Seq<char>, st: int, e: int, now: ZonedDateTime) -> bool {
    &&& count_ok(s, st, e, now)
    &&& offset_hour_ok(s, st, e)
    &&& offset_minute_ok(s, st, e)
    &&& pm_ok(s, st, e)
}

/// Whether a number ends at `i`.
pub open spec fn run_end(s: Seq<char>, i: int) -> bool {
    0 <= i < s.len() && is_digit(s[i]) && (i + 1 == s.len() || !is_digit(s[i + 1]))
}

/// Whether the parser is safe at position `k`: the word, the `.` and the
/// number there.
pub open spec fn pos_ok(s: Seq<char>, k: int, now: ZonedDateTime) -> bool {
    &&& word_ok(s, k, now)
    &&& point_ok(s, k)
    &&& run_end(s, k) ==> number_ok(s, run_start(s, k), k + 1, now)
}

/// Reference times the parser is called with: a valid UTC offset (less than
/// a day), nanoseconds below one second, and an instant in chrono's range.
pub open spec fn supported_now(now: ZonedDateTime) -> bool {
    &&& -86_400 < now.utc_offset < 86_400
    &&& now.nanos < 1_000_000_000
    &&& chrono_min_timestamp() <= now.timestamp <= chrono_max_timestamp()
}

/// The month, counted from 0, that chrono's `Datelike::month0` gives for
/// the instant `timestamp` seen at the UTC offset `utc_offset`.
pub uninterp spec fn chrono_month0(timestamp: i64, utc_offset: i32) -> int;

/// Calls `Datelike::month0` on `now` as a `chrono::DateTime<FixedOffset>`.
/// The contract claims that the result is `chrono_month0` of the instant and
/// offset, and, as chrono documents, from 0 to 11.
#[verifier::external_body]
fn local_month0(now: ZonedDateTime) -> (m: u32)
    requires
        supported_now(now),
    ensures
        m == chrono_month0(now.timestamp, now.utc_offset),
        m < 12,
{
    let offset = chrono::FixedOffset::east_opt(now.utc_offset).unwrap();
    let d = chrono::TimeZone::timestamp_opt(&offset, now.timestamp, 0).unwrap();
    chrono::Datelike::month0(&d)
}

/// The inputs on which the date parser does not panic: a supported
/// reference time, and a text that is safe at every position.
pub open spec fn supported_input(text: Seq<char>, now: ZonedDateTime) -> bool {
    &&& supported_now(now)
    &&& forall|k: int| 0 <= k < text.len() ==> #[trigger] pos_ok(text, k, now)
}

/// Every reference time the parser can be given is supported: any UTC
/// offset less than a day east or west of UTC, any fraction of a second,
/// any instant in chrono's range. On such a time the empty text, for one,
/// is supported input.
pub proof fn lemma_every_valid_reference_time_is_supported(now: ZonedDateTime)
    requires
        -86_400 < now.utc_offset < 86_400,
        now.nanos < 1_000_000_000,
        -8_334_601_315_200 <= now.timestamp <= 8_210_266_876_799,
    ensures
        supported_now(now),
        supported_input(Seq::<char>::empty(), now),
{
}

/// Which texts are supported does not depend on the fraction of a second of
/// the reference time: two reference times that differ only there support
/// the same texts.
pub proof fn lemma_supported_input_ignores_fraction_of_second(
    text: Seq<char>,
    now: ZonedDateTime,
    nanos: u32,
)
    requires
        now.nanos < 1_000_000_000,
        nanos < 1_000_000_000,
    ensures
        supported_input(text, now) == supported_input(
            text,
            ZonedDateTime { timestamp: now.timestamp, nanos, utc_offset: now.utc_offset },
        ),
{
    let other = ZonedDateTime { timestamp: now.timestamp, nanos, utc_offset: now.utc_offset };
    assert forall|k: int| 0 <= k < text.len() implies #[trigger] pos_ok(text, k, now) == pos_ok(
        text,
        k,
        other,
    ) by {
        assert(now.timestamp == other.timestamp && now.utc_offset == other.utc_offset);
    }
    if supported_input(text, now) {
        assert forall|k: int| 0 <= k < text.len() implies #[trigger] pos_ok(text, k, other) by {
            assert(pos_ok(text, k, now));
        }
    }
    if supported_input(text, other) {
        assert forall|k: int| 0 <= k < text.len() implies #[trigger] pos_ok(text, k, now) by {
            assert(pos_ok(text, k, other));
        }
    }
}

/// Reference times east and west of UTC are alike: a time is supported
/// exactly when the same instant at the opposite UTC offset is.
pub proof fn lemma_supported_now_either_side_of_utc(now: ZonedDateTime)
    requires
        now.utc_offset > i32::MIN,
    ensures
        supported_now(now) == supported_now(
            ZonedDateTime { timestamp: now.timestamp, nanos: now.nanos, utc_offset: (-now.utc_offset) as i32 },
        ),
{
}

/// Computes `capped(digits_value(..))` of the digits from `st` to `e`.
fn digits_capped(v: &Vec<char>, st: usize, e: usize) -> (r: u64)
    requires
        st <= e <= v@.len(),
        forall|j: int| st <= j < e ==> is_digit(#[trigger] v@[j]),
    ensures
        r == capped(digits_value(v@.subrange(st as int, e as int))),
{
    let mut value: u64 = 0;
    let mut i = st;
    proof {
        assert(v@.subrange(st as int, st as int) =~= Seq::<char>::empty());
    }
    while i < e
        invariant
            st <= i <= e <= v@.len(),
            forall|j: int| st <= j < e ==> is_digit(#[trigger] v@[j]),
            value == capped(digits_value(v@.subrange(st as int, i as int))),
        decreases e - i,
    {
        let c = v[i];
        assert(is_digit(v@[i as int]));
        let d = (c as u32 - 48) as u64;
        let ghost before = digits_value(v@.subrange(st as int, i as int));
        proof {
            let t = v@.subrange(st as int, i + 1);
            assert(t.drop_last() =~= v@.subrange(st as int, i as int));
            assert(t.last() == c);
            assert(digits_value(t) == before * 10 + d);
        }
        if value > 429_496_729 {
            value = 4_294_967_296;
        } else {
            let x = value * 10 + d;
            value = if x > 4_294_967_296 {
                4_294_967_296
            } else {
                x
            };
        }
        i += 1;
    }
    value
}

/// Computes `unit_of`.
fn unit_of_word(lw: &Vec<char>) -> (r: (u64, i64))
    ensures
        r.0 == unit_of(lw@).0,
        r.1 == unit_of(lw@).1,
        r.0 == 1 ==> 1 <= r.1 <= 604_800,
        r.0 == 2 ==> 1 <= r.1 <= 12,
{
    if !at_least_three_bytes(lw) {
        if lw.len() >= 1 {
            let c = lw[0];
            if c == 's' {
                (1, 1)
            } else if c == 'm' {
                (1, 60)
            } else if c == 'h' {
                (1, 3_600)
            } else if c == 'd' {
                (1, 86_400)
            } else if c == 'w' {
                (1, 604_800)
            } else if c == 'y' {
                (2, 12)
            } else {
                (0, 0)
            }
        } else {
            (0, 0)
        }
    } else if lw.len() >= 3 {
        let (a, b, c) = (lw[0], lw[1], lw[2]);
        if a == 's' && b == 'e' && c == 'c' {
            (1, 1)
        } else if a == 'm' && b == 'i' && c == 'n' {
            (1, 60)
        } else if a == 'h' && b == 'o' && c == 'u' {
            (1, 3_600)
        } else if a == 'd' && b == 'a' && c == 'y' {
            (1, 86_400)
        } else if a == 'w' && b == 'e' && c == 'e' {
            (1, 604_800)
        } else if a == 'm' && b == 'o' && c == 'n' {
            (2, 1)
        } else if a == 'y' && b == 'e' && c == 'a' {
            (2, 12)
        } else {
            (0, 0)
        }
    } else {
        (0, 0)
    }
}

/// Computes `count_panics`.
fn count_panics_of(v: u64, kind: u64, amount: i64, neg: bool, now: ZonedDateTime, m0: u32) -> (b: bool)
    requires
        m0 == chrono_month0(now.timestamp, now.utc_offset),
        m0 < 12,
        v <= 4_294_967_295,
        kind == 1 ==> 1 <= amount <= 604_800,
        kind == 2 ==> 1 <= amount <= 12,
        -9_000_000_000_000 <= now.timestamp <= 9_000_000_000_000,
    ensures
        b == count_panics(v as int, kind as int, amount as int, neg, now),
{
    let n: i64 = if v < 2_147_483_648 {
        v as i64
    } else {
        v as i64 - 4_294_967_296
    };
    if neg && n == -2_147_483_648 {
        return true;
    }
    let k: i64 = if neg {
        -n
    } else {
        n
    };
    if kind == 1 {
        proof {
            assert(-2_147_483_648 * 604_800 <= k * amount <= 2_147_483_648 * 604_800) by (nonlinear_arith)
                requires
                    -2_147_483_648 <= k <= 2_147_483_648,
                    1 <= amount <= 604_800,
            ;
        }
        let t = now.timestamp + k * amount;
        !(-8_334_601_315_200 <= t && t <= 8_210_266_876_799)
    } else if kind == 2 {
        proof {
            assert(-2_147_483_648 * 12 <= amount * k <= 2_147_483_648 * 12) by (nonlinear_arith)
                requires
                    -2_147_483_648 <= k <= 2_147_483_648,
                    1 <= amount <= 12,
            ;
        }
        let delta = amount * k;
        let month = m0 as i64 + delta;
        !(-2_147_483_648 <= delta && delta <= 2_147_483_647) || month > 2_147_483_647 || (month < 0
            && 12 - month > 2_147_483_647)
    } else {
        false
    }
}

/// Computes `count_ok`.
fn count_safe(text: &str, v: &Vec<char>, st: usize, e: usize, now: ZonedDateTime, m0: u32) -> (b: bool)
    requires
        m0 == chrono_month0(now.timestamp, now.utc_offset),
        m0 < 12,
        v@ == text@,
        st < e <= v.len(),
        forall|j: int| st <= j < e ==> is_digit(#[trigger] v@[j]),
        -9_000_000_000_000 <= now.timestamp <= 9_000_000_000_000,
    ensures
        b == count_ok(v@, st as int, e as int, now),
{
    let val = digits_capped(v, st, e);
    let (l, sign) = lead_at(v, st);
    let w = ws_fwd_of(v, e);
    if !(l && val <= 4_294_967_295 && word_starts(v, w)) {
        return true;
    }
    let we = word_end_of(v, w + 1);
    let lw = lowercase_word(text, w, we);
    if slicing_panics(&lw, true) {
        return false;
    }
    let a = ws_fwd_of(v, we);
    let next_word = word_starts(v, a);
    let ago = if next_word {
        let ae = word_end_of(v, a + 1);
        let ago_word = vec!['a', 'g', 'o'];
        proof {
            assert(ago_word@ =~= seq!['a', 'g', 'o']);
        }
        word_matches(v, a, ae, &ago_word)
    } else {
        false
    };
    if !(sign || !next_word || ago) {
        return true;
    }
    let (kind, amount) = unit_of_word(&lw);
    !count_panics_of(val, kind, amount, sign || ago, now, m0)
}

/// Computes `numeric_back`.
fn numeric_back_of(v: &Vec<char>, e: usize) -> (r: usize)
    requires
        e <= v@.len(),
    ensures
        r == numeric_back(v@, e as int),
        r <= e,
{
    let mut m = e;
    let mut go = m > 0 && char_is_numeric(v[m - 1]);
    while go
        invariant
            m <= e <= v@.len(),
            numeric_back(v@, m as int) == numeric_back(v@, e as int),
            go == (m > 0 && unicode_numeric(v@[m - 1])),
        decreases m,
    {
        m -= 1;
        go = m > 0 && char_is_numeric(v[m - 1]);
    }
    m
}

/// Computes `fraction_before`.
fn fraction_before_at(v: &Vec<char>, e: usize) -> (b: bool)
    requires
        e <= v@.len(),
    ensures
        b == fraction_before(v@, e as int),
{
    let m = numeric_back_of(v, e);
    (1 <= m && m < e && v[m - 1] == '.' && fraction_point_at(v, m - 1)) || (2 <= m && v[m - 2]
        == '.' && fraction_point_at(v, m - 2))
}

/// Computes `offset_sign`.
fn offset_sign_at(v: &Vec<char>, p: usize) -> (b: bool)
    requires
        p < v@.len(),
    ensures
        b == offset_sign(v@, p as int),
{
    if !(v[p] == '+' || v[p] == '-') {
        return false;
    }
    let e = ws_back_of(v, p);
    if e > 0 && char_is_digit(v[e - 1]) {
        let r = run_start_of(v, e - 1);
        if seconds_like_at(v, r) {
            return true;
        }
    }
    fraction_before_at(v, e)
}

/// Computes `offset_hour_run`.
fn offset_hour_run_at(v: &Vec<char>, k: usize) -> (b: bool)
    requires
        k <= v@.len(),
    ensures
        b == offset_hour_run(v@, k as int),
{
    let j = ws_back_of(v, k);
    j > 0 && offset_sign_at(v, j - 1)
}

/// Computes `offset_hour_ok`.
fn offset_hour_safe(v: &Vec<char>, st: usize, e: usize) -> (b: bool)
    requires
        st < e <= v@.len(),
        forall|j: int| st <= j < e ==> is_digit(#[trigger] v@[j]),
    ensures
        b == offset_hour_ok(v@, st as int, e as int),
{
    let val = digits_capped(v, st, e);
    if !(offset_hour_run_at(v, st) && !(e < v.len() && v[e] == ':') && val <= 4_294_967_295) {
        return true;
    }
    60 * (val % 100 + 60 * (val / 100)) <= 4_294_967_295
}

/// Computes `offset_minute_ok`.
fn offset_minute_safe(v: &Vec<char>, st: usize, e: usize) -> (b: bool)
    requires
        st < e <= v@.len(),
        forall|j: int| st <= j < e ==> is_digit(#[trigger] v@[j]),
    ensures
        b == offset_minute_ok(v@, st as int, e as int),
{
    let val = digits_capped(v, st, e);
    let j = ws_back_of(v, st);
    if !(j >= 2 && v[j - 1] == ':' && char_is_digit(v[j - 2])) {
        return true;
    }
    let hs = run_start_of(v, j - 2);
    if !offset_hour_run_at(v, hs) {
        return true;
    }
    let h = digits_capped(v, hs, j - 1);
    if !(h <= 4_294_967_295 && val <= 4_294_967_295) {
        return true;
    }
    60 * (val + 60 * h) <= 4_294_967_295
}

/// Whether the word `pm` (as read or lowercased) starts somewhere from `e`
/// on.
fn pm_after(text: &str, v: &Vec<char>, e: usize) -> (b: bool)
    requires
        v@ == text@,
        e <= v@.len(),
    ensures
        b == exists|a: int| e <= a && #[trigger] pm_word_at(v@, a),
{
    let pm = vec!['p', 'm'];
    proof {
        assert(pm@ =~= seq!['p', 'm']);
    }
    let mut a = e;
    while a < v.len()
        invariant
            v@ == text@,
            e <= a <= v@.len(),
            pm@ == seq!['p', 'm'],
            forall|x: int| e <= x < a ==> !#[trigger] pm_word_at(v@, x),
        decreases v@.len() - a,
    {
        if word_starts(v, a) {
            let we = word_end_of(v, a + 1);
            if word_matches(v, a, we, &pm) {
                assert(pm_word_at(v@, a as int));
                return true;
            }
            let lw = lowercase_word(text, a, we);
            if lw.len() == 2 && lw[0] == 'p' && lw[1] == 'm' {
                assert(lw@ =~= seq!['p', 'm']);
                assert(pm_word_at(v@, a as int));
                return true;
            }
            assert(lw@ != seq!['p', 'm']) by {
                if lw@ == seq!['p', 'm'] {
                    assert(lw@.len() == 2 && lw@[0] == 'p' && lw@[1] == 'm');
                }
            }
        }
        a += 1;
    }
    assert forall|x: int| e <= x implies !#[trigger] pm_word_at(v@, x) by {
        if x < a {
        }
    }
    false
}

/// Computes `pm_ok`.
fn pm_safe(text: &str, v: &Vec<char>, st: usize, e: usize) -> (b: bool)
    requires
        v@ == text@,
        st < e <= v@.len(),
        forall|j: int| st <= j < e ==> is_digit(#[trigger] v@[j]),
    ensures
        b == pm_ok(v@, st as int, e as int),
{
    let exempt = st >= 2 && v[st - 1] == '.' && char_is_digit(v[st - 2]);
    if exempt || !pm_after(text, v, e) {
        return true;
    }
    digits_capped(v, st, e) <= 4_294_967_283
}

/// Computes `pos_ok`.
fn pos_safe(text: &str, v: &Vec<char>, k: usize, now: ZonedDateTime, m0: u32) -> (b: bool)
    requires
        m0 == chrono_month0(now.timestamp, now.utc_offset),
        m0 < 12,
        v@ == text@,
        k < v.len(),
        supported_now(now),
    ensures
        b == pos_ok(v@, k as int, now),
{
    if !word_safe(text, v, k, now) {
        return false;
    }
    if fraction_point_at(v, k) && !fraction_parses_at(v, k + 1) {
        return false;
    }
    if char_is_digit(v[k]) && (k + 1 == v.len() || !char_is_digit(v[k + 1])) {
        let st = run_start_of(v, k);
        let e = k + 1;
        if !count_safe(text, v, st, e, now, m0) || !offset_hour_safe(v, st, e) || !offset_minute_safe(
            v,
            st,
            e,
        ) || !pm_safe(text, v, st, e) {
            return false;
        }
    }
    true
}

/// Checks `supported_input`.
pub fn parse_supported(text: &str, now: ZonedDateTime) -> (b: bool)
    ensures
        b == supported_input(text@, now),
{
    if !(-86_400 < now.utc_offset && now.utc_offset < 86_400 && now.nanos < 1_000_000_000
        && -8_334_601_315_200 <= now.timestamp && now.timestamp <= 8_210_266_876_799) {
        return false;
    }
    let v = chars_of(text);
    let m0 = local_month0(now);
    let mut k: usize = 0;
    while k < v.len()
        invariant
            v@ == text@,
            k <= v@.len(),
            supported_now(now),
            m0 == chrono_month0(now.timestamp, now.utc_offset),
            m0 < 12,
            forall|j: int| 0 <= j < k ==> #[trigger] pos_ok(text@, j, now),
        decreases v@.len() - k,
    {
        if !pos_safe(text, &v, k, now, m0) {
            return false;
        }
        k += 1;
    }
    true
}

} // verus!

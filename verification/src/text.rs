//! Verified helpers for the strings the orchestrator works with: copying,
//! comparing, splitting, trimming, searching, decimal formatting and
//! parsing, and substring replacement.
use vstd::prelude::*;
use vstd::arithmetic::div_mod::{lemma_div_decreases, lemma_div_pos_is_pos};

verus! {

/// Do two string slices read the same characters?
pub fn str_eq(a: &str, b: &str) -> (r: bool)
    ensures
        r == (a@ == b@),
{
    let sa = a.to_owned();
    let sb = b.to_owned();
    sa == sb
}

/// A copy of a string vector, equal element for element.
pub fn clone_string_vec(v: &Vec<String>) -> (r: Vec<String>)
    ensures
        r@ == v@,
{
    let mut r: Vec<String> = Vec::new();
    let mut i: usize = 0;
    while i < v.len()
        invariant
            0 <= i <= v@.len(),
            r@ =~= v@.take(i as int),
        decreases v@.len() - i,
    {
        r.push(v[i].clone());
        i = i + 1;
    }
    proof {
        assert(r@ =~= v@);
    }
    r
}

/// The position of the first occurrence of `sep` in `s`, or `s.len()` when
/// `sep` does not occur.
pub open spec fn find_sep(s: Seq<char>, sep: char) -> nat
    decreases s.len(),
{
    if s.len() == 0 {
        0
    } else if s[0] == sep {
        0
    } else {
        1 + find_sep(s.drop_first(), sep)
    }
}

/// What `find_sep` returns: the first occurrence, or the length.
pub proof fn lemma_find_sep_properties(s: Seq<char>, sep: char)
    ensures
        find_sep(s, sep) <= s.len(),
        find_sep(s, sep) < s.len() ==> s[find_sep(s, sep) as int] == sep,
        forall|j: int| 0 <= j < find_sep(s, sep) ==> s[j] != sep,
    decreases s.len(),
{
    if s.len() > 0 && s[0] != sep {
        lemma_find_sep_properties(s.drop_first(), sep);
        let i = find_sep(s, sep);
        assert forall|j: int| 0 <= j < i implies s[j] != sep by {
            if j > 0 {
                assert(s.drop_first()[j - 1] != sep);
            }
        }
    }
}

/// When `i` is the position of the first `sep`, `find_sep` returns `i`.
pub proof fn lemma_find_sep_at(s: Seq<char>, sep: char, i: int)
    requires
        0 <= i < s.len(),
        s[i] == sep,
        forall|j: int| 0 <= j < i ==> s[j] != sep,
    ensures
        find_sep(s, sep) == i,
    decreases i,
{
    if i > 0 {
        assert(forall|j: int| 0 <= j < i - 1 ==> s.drop_first()[j] != sep);
        assert(s.drop_first()[i - 1] == sep);
        lemma_find_sep_at(s.drop_first(), sep, i - 1);
    }
}

/// When `sep` does not occur in `s`, `find_sep` returns the length.
pub proof fn lemma_find_sep_none(s: Seq<char>, sep: char)
    requires
        forall|j: int| 0 <= j < s.len() ==> s[j] != sep,
    ensures
        find_sep(s, sep) == s.len(),
{
    lemma_find_sep_properties(s, sep);
    if find_sep(s, sep) < s.len() {
        assert(s[find_sep(s, sep) as int] == sep);
    }
}

/// `s` split at every occurrence of `sep`, the way the fields of a
/// separated list read: an empty string yields one empty field, and a
/// trailing separator yields a trailing empty field.
pub open spec fn spec_split(s: Seq<char>, sep: char) -> Seq<Seq<char>>
    decreases s.len(),
{
    let i = find_sep(s, sep);
    if i < s.len() {
        seq![s.take(i as int)] + spec_split(s.skip(i as int + 1), sep)
    } else {
        seq![s]
    }
}

/// `s` split at every occurrence of `sep`.
pub fn split_on_char(s: &str, sep: char) -> (r: Vec<String>)
    ensures
        r@.map_values(|x: String| x@) == spec_split(s@, sep),
    decreases s@.len(),
{
    let n = s.unicode_len();
    let mut i: usize = 0;
    while i < n
        invariant
            0 <= i <= n,
            n == s@.len(),
            forall|j: int| 0 <= j < i ==> s@[j] != sep,
        decreases n - i,
    {
        if s.get_char(i) == sep {
            proof {
                lemma_find_sep_at(s@, sep, i as int);
            }
            let head = s.substring_char(0, i).to_owned();
            let tail = s.substring_char(i + 1, n);
            let mut rest = split_on_char(tail, sep);
            proof {
                assert(head@ =~= s@.take(i as int));
                assert(tail@ =~= s@.skip(i as int + 1));
            }
            let mut r: Vec<String> = Vec::new();
            r.push(head);
            r.append(&mut rest);
            proof {
                assert(r@.map_values(|x: String| x@) =~= spec_split(s@, sep));
            }
            return r;
        }
        i = i + 1;
    }
    proof {
        lemma_find_sep_none(s@, sep);
    }
    let mut r: Vec<String> = Vec::new();
    r.push(s.to_owned());
    proof {
        assert(r@.map_values(|x: String| x@) =~= spec_split(s@, sep));
    }
    r
}

/// The whitespace the trimmer strips: the blank characters that turn up
/// around the fields of a separated list.
pub open spec fn is_space(c: char) -> bool {
    c == ' ' || c == '\t' || c == '\n' || c == '\r'
}

/// `s` without leading whitespace.
pub open spec fn spec_trim_start(s: Seq<char>) -> Seq<char>
    decreases s.len(),
{
    if s.len() > 0 && is_space(s[0]) {
        spec_trim_start(s.drop_first())
    } else {
        s
    }
}

/// `s` without trailing whitespace.
pub open spec fn spec_trim_end(s: Seq<char>) -> Seq<char>
    decreases s.len(),
{
    if s.len() > 0 && is_space(s[s.len() - 1]) {
        spec_trim_end(s.drop_last())
    } else {
        s
    }
}

/// `s` without leading and trailing whitespace.
pub open spec fn spec_trim(s: Seq<char>) -> Seq<char> {
    spec_trim_end(spec_trim_start(s))
}

/// `spec_trim_start` drops exactly the longest all-space prefix.
proof fn lemma_trim_start_skip(s: Seq<char>, i: int)
    requires
        0 <= i <= s.len(),
        forall|j: int| 0 <= j < i ==> is_space(s[j]),
        i < s.len() ==> !is_space(s[i]),
    ensures
        spec_trim_start(s) == s.skip(i),
    decreases i,
{
    if i == 0 {
        assert(s.skip(0) =~= s);
    } else {
        assert(is_space(s[0]));
        assert(forall|j: int| 0 <= j < i - 1 ==> is_space(s.drop_first()[j]));
        assert(i - 1 < s.drop_first().len() ==> !is_space(s.drop_first()[i - 1]));
        lemma_trim_start_skip(s.drop_first(), i - 1);
        assert(s.drop_first().skip(i - 1) =~= s.skip(i));
    }
}

/// `spec_trim_end` drops exactly the longest all-space suffix.
proof fn lemma_trim_end_take(s: Seq<char>, i: int)
    requires
        0 <= i <= s.len(),
        forall|j: int| i <= j < s.len() ==> is_space(s[j]),
        i > 0 ==> !is_space(s[i - 1]),
    ensures
        spec_trim_end(s) == s.take(i),
    decreases s.len() - i,
{
    if i == s.len() {
        assert(s.take(i) =~= s);
    } else {
        assert(is_space(s[s.len() - 1]));
        assert(forall|j: int| i <= j < s.drop_last().len() ==> is_space(s.drop_last()[j]));
        lemma_trim_end_take(s.drop_last(), i);
        assert(s.drop_last().take(i) =~= s.take(i));
    }
}

/// Is this character one the trimmer strips?
fn is_space_char(c: char) -> (r: bool)
    ensures
        r == is_space(c),
{
    c == ' ' || c == '\t' || c == '\n' || c == '\r'
}

/// `s` without leading and trailing whitespace.
pub fn trim_str(s: &str) -> (r: String)
    ensures
        r@ == spec_trim(s@),
{
    let n = s.unicode_len();
    let mut start: usize = 0;
    while start < n && is_space_char(s.get_char(start))
        invariant
            0 <= start <= n,
            n == s@.len(),
            forall|j: int| 0 <= j < start ==> is_space(s@[j]),
        decreases n - start,
    {
        start = start + 1;
    }
    proof {
        lemma_trim_start_skip(s@, start as int);
    }
    let mut end: usize = n;
    while end > start && is_space_char(s.get_char(end - 1))
        invariant
            start <= end <= n,
            n == s@.len(),
            forall|j: int| end <= j < n ==> is_space(s@[j]),
            spec_trim_start(s@) == s@.skip(start as int),
        decreases end,
    {
        end = end - 1;
    }
    let r = s.substring_char(start, end).to_owned();
    proof {
        let t = s@.skip(start as int);
        assert(forall|j: int| end - start <= j < t.len() ==> is_space(t[j]));
        assert(end - start > 0 ==> !is_space(t[end - start - 1]));
        lemma_trim_end_take(t, end - start);
        assert(r@ =~= t.take(end - start));
    }
    r
}

/// Is `c` a decimal digit?
pub open spec fn is_digit(c: char) -> bool {
    48 <= c as int <= 57
}

/// The numeric value of a digit character.
pub open spec fn digit_val(c: char) -> int {
    c as int - 48
}

/// Does `s` read as an unsigned decimal number: nonempty and all digits?
pub open spec fn is_digit_seq(s: Seq<char>) -> bool {
    s.len() > 0 && forall|j: int| 0 <= j < s.len() ==> is_digit(s[j])
}

/// The number an all-digit sequence reads as.
pub open spec fn spec_digits_val(s: Seq<char>) -> int
    decreases s.len(),
{
    if s.len() == 0 {
        0
    } else {
        spec_digits_val(s.drop_last()) * 10 + digit_val(s.last())
    }
}

/// An all-digit sequence reads as a number that is not negative.
proof fn lemma_digits_val_nonneg(s: Seq<char>)
    requires
        forall|j: int| 0 <= j < s.len() ==> is_digit(s[j]),
    ensures
        spec_digits_val(s) >= 0,
    decreases s.len(),
{
    if s.len() > 0 {
        assert(forall|j: int| 0 <= j < s.drop_last().len() ==> is_digit(s.drop_last()[j]));
        lemma_digits_val_nonneg(s.drop_last());
    }
}

/// Extending an all-digit sequence never shrinks the number it reads as.
proof fn lemma_digits_val_prefix(s: Seq<char>, i: int)
    requires
        0 <= i <= s.len(),
        forall|j: int| 0 <= j < s.len() ==> is_digit(s[j]),
    ensures
        spec_digits_val(s) >= spec_digits_val(s.take(i)),
    decreases s.len() - i,
{
    if i == s.len() {
        assert(s.take(i) =~= s);
    } else {
        lemma_digits_val_prefix(s, i + 1);
        let t = s.take(i + 1);
        assert(t.drop_last() =~= s.take(i));
        assert(t.last() == s[i]);
        assert(forall|j: int| 0 <= j < s.take(i).len() ==> is_digit(s.take(i)[j]));
        lemma_digits_val_nonneg(s.take(i));
    }
}

/// Parse an unsigned decimal number.  Returns the value exactly when `s` is
/// nonempty, all digits, and the value fits in a `u32`.
pub fn parse_u32(s: &str) -> (r: Option<u32>)
    ensures
        match r {
            Some(v) => is_digit_seq(s@) && spec_digits_val(s@) == v as int && spec_digits_val(s@)
                <= u32::MAX,
            None => !(is_digit_seq(s@) && spec_digits_val(s@) <= u32::MAX),
        },
{
    let n = s.unicode_len();
    if n == 0 {
        return None;
    }
    let mut acc: u64 = 0;
    let mut i: usize = 0;
    while i < n
        invariant
            0 <= i <= n,
            n == s@.len(),
            forall|j: int| 0 <= j < i ==> is_digit(s@[j]),
            acc as int == spec_digits_val(s@.take(i as int)),
            acc <= u32::MAX,
        decreases n - i,
    {
        let c = s.get_char(i);
        let cv = c as u32;
        if cv < 48 || cv > 57 {
            return None;
        }
        let d = (cv - 48) as u64;
        acc = acc * 10 + d;
        proof {
            let t = s@.take(i as int + 1);
            assert(t.drop_last() =~= s@.take(i as int));
            assert(t.last() == s@[i as int]);
        }
        i = i + 1;
        if acc > u32::MAX as u64 {
            proof {
                if is_digit_seq(s@) {
                    lemma_digits_val_prefix(s@, i as int);
                }
            }
            return None;
        }
    }
    proof {
        assert(s@.take(n as int) =~= s@);
    }
    Some(acc as u32)
}

/// The digit character for a value below ten.
pub open spec fn spec_digit_char(d: int) -> char {
    if d == 0 {
        '0'
    } else if d == 1 {
        '1'
    } else if d == 2 {
        '2'
    } else if d == 3 {
        '3'
    } else if d == 4 {
        '4'
    } else if d == 5 {
        '5'
    } else if d == 6 {
        '6'
    } else if d == 7 {
        '7'
    } else if d == 8 {
        '8'
    } else {
        '9'
    }
}

/// The decimal reading of a number, most significant digit first.
pub open spec fn spec_dec(n: int) -> Seq<char>
    decreases n,
{
    if n < 10 {
        seq![spec_digit_char(n)]
    } else {
        spec_dec(n / 10) + seq![spec_digit_char(n % 10)]
    }
}

/// The one-character string for a digit value.
fn digit_str(d: u32) -> (r: String)
    requires
        d < 10,
    ensures
        r@ =~= seq![spec_digit_char(d as int)],
{
    let r = if d == 0 {
        proof {
            reveal_strlit("0");
        }
        String::from_str("0")
    } else if d == 1 {
        proof {
            reveal_strlit("1");
        }
        String::from_str("1")
    } else if d == 2 {
        proof {
            reveal_strlit("2");
        }
        String::from_str("2")
    } else if d == 3 {
        proof {
            reveal_strlit("3");
        }
        String::from_str("3")
    } else if d == 4 {
        proof {
            reveal_strlit("4");
        }
        String::from_str("4")
    } else if d == 5 {
        proof {
            reveal_strlit("5");
        }
        String::from_str("5")
    } else if d == 6 {
        proof {
            reveal_strlit("6");
        }
        String::from_str("6")
    } else if d == 7 {
        proof {
            reveal_strlit("7");
        }
        String::from_str("7")
    } else if d == 8 {
        proof {
            reveal_strlit("8");
        }
        String::from_str("8")
    } else {
        proof {
            reveal_strlit("9");
        }
        String::from_str("9")
    };
    r
}

/// The decimal reading of `n`.
pub fn u32_to_dec(n: u32) -> (r: String)
    ensures
        r@ == spec_dec(n as int),
    decreases n,
{
    if n < 10 {
        digit_str(n)
    } else {
        proof {
            lemma_div_decreases(n as int, 10);
            lemma_div_pos_is_pos(n as int, 10);
        }
        let mut head = u32_to_dec(n / 10);
        let tail = digit_str(n % 10);
        head.append(tail.as_str());
        proof {
            assert(head@ =~= spec_dec(n as int));
        }
        head
    }
}

/// The decimal reading of a number reads back as that number: the digits
/// are digits and their value is the number.
pub proof fn lemma_dec_val(n: int)
    requires
        n >= 0,
    ensures
        is_digit_seq(spec_dec(n)),
        spec_digits_val(spec_dec(n)) == n,
    decreases n,
{
    if n < 10 {
        let s = spec_dec(n);
        assert(s == seq![spec_digit_char(n)]);
        assert(s.drop_last() =~= Seq::<char>::empty());
        assert(spec_digits_val(Seq::<char>::empty()) == 0);
        assert(s.last() == spec_digit_char(n));
        assert(spec_digits_val(s) == digit_val(spec_digit_char(n)));
    } else {
        lemma_div_decreases(n, 10);
        lemma_div_pos_is_pos(n, 10);
        lemma_dec_val(n / 10);
        vstd::arithmetic::div_mod::lemma_fundamental_div_mod(n, 10);
        vstd::arithmetic::div_mod::lemma_mod_bound(n, 10);
        let head = spec_dec(n / 10);
        let s = spec_dec(n);
        assert(s == head + seq![spec_digit_char(n % 10)]);
        assert(s.drop_last() =~= head);
        assert(s.last() == spec_digit_char(n % 10));
        assert(digit_val(spec_digit_char(n % 10)) == n % 10);
        assert(spec_digits_val(s) == spec_digits_val(head) * 10 + n % 10);
        assert(forall|j: int| 0 <= j < s.len() ==> is_digit(#[trigger] s[j])) by {
            assert(forall|j: int| 0 <= j < head.len() ==> is_digit(#[trigger] head[j]));
        }
    }
}

/// Joining parts that hold no separator and splitting the result gives
/// the parts back.
pub proof fn lemma_split_join(parts: Seq<Seq<char>>, sep: char)
    requires
        parts.len() > 0,
        forall|i: int| 0 <= i < parts.len() ==> !(#[trigger] parts[i]).contains(sep),
    ensures
        spec_split(spec_join(parts, seq![sep]), sep) == parts,
    decreases parts.len(),
{
    let joined = spec_join(parts, seq![sep]);
    if parts.len() == 1 {
        assert(joined =~= parts[0]);
        assert(forall|j: int| 0 <= j < parts[0].len() ==> parts[0][j] != sep) by {
            assert(!parts[0].contains(sep));
            assert forall|j: int| 0 <= j < parts[0].len() implies parts[0][j] != sep by {
                if parts[0][j] == sep {
                    assert(parts[0].contains(sep));
                }
            }
        }
        lemma_find_sep_none(joined, sep);
        assert(spec_split(joined, sep) == seq![joined]);
        assert(seq![joined] =~= parts);
    } else {
        assert(forall|i: int|
            0 <= i < parts.drop_first().len() ==> !(#[trigger] parts.drop_first()[i]).contains(
                sep,
            ));
        lemma_split_join(parts.drop_first(), sep);
        let rest_joined = spec_join(parts.drop_first(), seq![sep]);
        assert(joined =~= parts[0] + seq![sep] + rest_joined) by {
            assert(spec_join_tail(parts.drop_first(), seq![sep]) == seq![sep]
                + parts.drop_first()[0] + spec_join_tail(parts.drop_first().drop_first(), seq![sep]));
            assert(rest_joined == parts.drop_first()[0] + spec_join_tail(
                parts.drop_first().drop_first(),
                seq![sep],
            ));
        }
        let i = parts[0].len() as int;
        assert(joined[i] == sep);
        assert(forall|j: int| 0 <= j < i ==> joined[j] != sep) by {
            assert(!parts[0].contains(sep));
            assert forall|j: int| 0 <= j < i implies joined[j] != sep by {
                assert(joined[j] == parts[0][j]);
                if parts[0][j] == sep {
                    assert(parts[0].contains(sep));
                }
            }
        }
        lemma_find_sep_at(joined, sep, i);
        assert(joined.take(i) =~= parts[0]);
        assert(joined.skip(i + 1) =~= rest_joined);
        assert(spec_split(joined, sep) == seq![joined.take(i)] + spec_split(
            joined.skip(i + 1),
            sep,
        ));
        assert(seq![parts[0]] + parts.drop_first() =~= parts);
    }
}

/// What follows the first part of a joined list: a separator and a part,
/// for each remaining part.
pub open spec fn spec_join_tail(parts: Seq<Seq<char>>, sep: Seq<char>) -> Seq<char>
    decreases parts.len(),
{
    if parts.len() == 0 {
        Seq::empty()
    } else {
        sep + parts[0] + spec_join_tail(parts.drop_first(), sep)
    }
}

/// The parts joined with the separator between each two.
pub open spec fn spec_join(parts: Seq<Seq<char>>, sep: Seq<char>) -> Seq<char> {
    if parts.len() == 0 {
        Seq::empty()
    } else {
        parts[0] + spec_join_tail(parts.drop_first(), sep)
    }
}

/// The strings joined with the separator between each two.
pub fn join_strings(parts: &Vec<String>, sep: &str) -> (r: String)
    ensures
        r@ == spec_join(parts@.map_values(|s: String| s@), sep@),
{
    let ghost ps = parts@.map_values(|s: String| s@);
    if parts.len() == 0 {
        return String::new();
    }
    let mut out = parts[0].clone();
    let mut i: usize = 1;
    proof {
        crate::seqs::lemma_skip_drop_first(ps, 0);
        assert(ps.skip(1) =~= ps.drop_first());
        assert(out@ + spec_join_tail(ps.skip(i as int), sep@) == spec_join(ps, sep@));
    }
    while i < parts.len()
        invariant
            1 <= i <= parts@.len(),
            ps == parts@.map_values(|s: String| s@),
            out@ + spec_join_tail(ps.skip(i as int), sep@) == spec_join(ps, sep@),
        decreases parts@.len() - i,
    {
        proof {
            crate::seqs::lemma_skip_drop_first(ps, i as int);
            assert(ps.skip(i as int)[0] == parts@[i as int]@);
        }
        let ghost before = out@;
        out.append(sep);
        out.append(parts[i].as_str());
        proof {
            assert(out@ == before + sep@ + ps[i as int]);
            assert(spec_join_tail(ps.skip(i as int), sep@) == sep@ + ps[i as int]
                + spec_join_tail(ps.skip(i as int + 1), sep@));
            assert(out@ + spec_join_tail(ps.skip(i as int + 1), sep@) =~= before + spec_join_tail(
                ps.skip(i as int),
                sep@,
            ));
        }
        i = i + 1;
    }
    proof {
        assert(ps.skip(i as int).len() == 0);
        assert(spec_join_tail(ps.skip(i as int), sep@) =~= Seq::<char>::empty());
        assert(out@ + spec_join_tail(ps.skip(i as int), sep@) =~= out@);
    }
    out
}

/// The position of the first occurrence of `pat` in `s`, or `s.len()` when
/// `pat` does not occur.  Meaningful for nonempty `pat`.
pub open spec fn find_sub(s: Seq<char>, pat: Seq<char>) -> nat
    decreases s.len(),
{
    if s.len() < pat.len() {
        s.len()
    } else if s.subrange(0, pat.len() as int) == pat {
        0
    } else if s.len() == 0 {
        0
    } else {
        1 + find_sub(s.drop_first(), pat)
    }
}

/// `s` with every occurrence of `pat` replaced by `rep`, scanning left to
/// right and not rescanning what `rep` put in, the way string replacement
/// conventionally reads.  With an empty `pat`, `s` is left unchanged.
pub open spec fn spec_replace(s: Seq<char>, pat: Seq<char>, rep: Seq<char>) -> Seq<char>
    decreases s.len(),
{
    if pat.len() == 0 {
        s
    } else {
        let i = find_sub(s, pat);
        if i + pat.len() <= s.len() {
            s.take(i as int) + rep + spec_replace(s.skip(i as int + pat.len() as int), pat, rep)
        } else {
            s
        }
    }
}

/// Does `pat` occur at position `i` of `s`?
pub open spec fn match_at(s: Seq<char>, pat: Seq<char>, i: int) -> bool {
    0 <= i && i + pat.len() <= s.len() && s.subrange(i, i + pat.len() as int) == pat
}

/// When `i` is the first position where `pat` occurs, `find_sub` returns `i`.
proof fn lemma_find_sub_at(s: Seq<char>, pat: Seq<char>, i: int)
    requires
        pat.len() > 0,
        match_at(s, pat, i),
        forall|j: int| 0 <= j < i ==> !match_at(s, pat, j),
    ensures
        find_sub(s, pat) == i,
    decreases i,
{
    if i == 0 {
        assert(s.subrange(0, pat.len() as int) == pat);
    } else {
        assert(!match_at(s, pat, 0));
        assert(s.len() >= pat.len());
        assert(s.subrange(0, pat.len() as int) != pat);
        let s2 = s.drop_first();
        assert(match_at(s2, pat, i - 1)) by {
            assert(s2.subrange(i - 1, i - 1 + pat.len() as int) =~= s.subrange(
                i,
                i + pat.len() as int,
            ));
        }
        assert forall|j: int| 0 <= j < i - 1 implies !match_at(s2, pat, j) by {
            assert(!match_at(s, pat, j + 1));
            if 0 <= j && j + pat.len() <= s2.len() {
                assert(s2.subrange(j, j + pat.len() as int) =~= s.subrange(
                    j + 1,
                    j + 1 + pat.len() as int,
                ));
            }
        }
        lemma_find_sub_at(s2, pat, i - 1);
    }
}

/// When `pat` occurs nowhere in `s`, `find_sub` reports no occurrence.
proof fn lemma_find_sub_none(s: Seq<char>, pat: Seq<char>)
    requires
        pat.len() > 0,
        forall|j: int| 0 <= j ==> !match_at(s, pat, j),
    ensures
        find_sub(s, pat) + pat.len() > s.len(),
    decreases s.len(),
{
    if s.len() < pat.len() {
    } else {
        assert(!match_at(s, pat, 0));
        assert(s.subrange(0, pat.len() as int) != pat);
        let s2 = s.drop_first();
        assert forall|j: int| 0 <= j implies !match_at(s2, pat, j) by {
            assert(!match_at(s, pat, j + 1));
            if 0 <= j && j + pat.len() <= s2.len() {
                assert(s2.subrange(j, j + pat.len() as int) =~= s.subrange(
                    j + 1,
                    j + 1 + pat.len() as int,
                ));
            }
        }
        lemma_find_sub_none(s2, pat);
    }
}

/// Does `pat` occur at position `i` of `s`?
fn matches_at(s: &str, n: usize, pat: &str, m: usize, i: usize) -> (r: bool)
    requires
        n == s@.len(),
        m == pat@.len(),
        i + m <= n,
    ensures
        r == match_at(s@, pat@, i as int),
{
    let mut k: usize = 0;
    while k < m
        invariant
            0 <= k <= m,
            n == s@.len(),
            m == pat@.len(),
            i + m <= n,
            forall|kk: int| 0 <= kk < k ==> s@[i + kk] == pat@[kk],
        decreases m - k,
    {
        if s.get_char(i + k) != pat.get_char(k) {
            proof {
                assert(s@.subrange(i as int, i + m) != pat@) by {
                    assert(s@.subrange(i as int, i + m)[k as int] == s@[i + k]);
                }
            }
            return false;
        }
        k = k + 1;
    }
    proof {
        assert(s@.subrange(i as int, i + m) =~= pat@);
    }
    true
}

/// `s` with every occurrence of `pat` replaced by `rep`, scanning left to
/// right.  An empty `pat` leaves `s` unchanged.
pub fn replace_substr(s: &str, pat: &str, rep: &str) -> (r: String)
    ensures
        r@ == spec_replace(s@, pat@, rep@),
    decreases s@.len(),
{
    let n = s.unicode_len();
    let m = pat.unicode_len();
    if m == 0 {
        return s.to_owned();
    }
    if m <= n {
        let mut i: usize = 0;
        while i <= n - m
            invariant
                0 <= i <= n - m + 1,
                n == s@.len(),
                m == pat@.len(),
                0 < m <= n,
                forall|j: int| 0 <= j < i ==> !match_at(s@, pat@, j),
            decreases n - m - i + 1,
        {
            if matches_at(s, n, pat, m, i) {
                proof {
                    lemma_find_sub_at(s@, pat@, i as int);
                }
                let mut out = s.substring_char(0, i).to_owned();
                out.append(rep);
                let tail = s.substring_char(i + m, n);
                proof {
                    assert(tail@ =~= s@.skip(i as int + m as int));
                }
                let rest = replace_substr(tail, pat, rep);
                out.append(rest.as_str());
                proof {
                    assert(out@ =~= spec_replace(s@, pat@, rep@)) by {
                        assert(s@.subrange(0, i as int) =~= s@.take(i as int));
                    }
                }
                return out;
            }
            i = i + 1;
        }
        proof {
            assert forall|j: int| 0 <= j implies !match_at(s@, pat@, j) by {
                if j + pat@.len() <= s@.len() {
                    assert(j < i);
                }
            }
            lemma_find_sub_none(s@, pat@);
        }
    } else {
        proof {
            assert(forall|j: int| 0 <= j ==> !match_at(s@, pat@, j));
            lemma_find_sub_none(s@, pat@);
        }
    }
    s.to_owned()
}

} // verus!

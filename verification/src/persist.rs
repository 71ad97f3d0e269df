//! The header-plus-lines resume format.
//!
//! A practice file may carry a marker token on its first line, followed by
//! the line index at which the session should resume. [`load`] recovers
//! that index — defaulting to zero when the marker or a usable number is
//! absent — and strips the header line; [`save`] builds the file content
//! the other way around: a header line holding the marker and the current
//! line index, then all reference lines, newline-joined.

use vstd::prelude::*;

verus! {

/// The marker token that opens a resume header.
pub open spec fn marker() -> Seq<char> {
    "typing-reader:"@
}

/// Whether the marker occurs in `s` starting at position `i`.
pub open spec fn is_marker_at(s: Seq<char>, i: int) -> bool {
    &&& 0 <= i
    &&& i + marker().len() <= s.len()
    &&& s.subrange(i, i + marker().len() as int) == marker()
}

/// The first position at or after `p` where the marker occurs in `s`, or
/// `s.len()` when it occurs nowhere there.
pub open spec fn marker_pos_from(s: Seq<char>, p: int) -> int
    decreases s.len() - p,
{
    if p < 0 || p >= s.len() {
        s.len() as int
    } else if is_marker_at(s, p) {
        p
    } else {
        marker_pos_from(s, p + 1)
    }
}

/// The first position where the marker occurs in `s`, or `s.len()`.
pub open spec fn marker_pos(s: Seq<char>) -> int {
    marker_pos_from(s, 0)
}

/// Whitespace, as it separates the resume index from what follows it.
pub open spec fn is_space(c: char) -> bool {
    c == ' ' || c == '\t' || c == '\r' || c == '\n'
}

/// The first position at or after `p` holding a non-space, or `s.len()`.
pub open spec fn first_non_space_from(s: Seq<char>, p: int) -> int
    decreases s.len() - p,
{
    if p < 0 || p >= s.len() {
        s.len() as int
    } else if is_space(s[p]) {
        first_non_space_from(s, p + 1)
    } else {
        p
    }
}

/// The first position at or after `p` holding a space, or `s.len()`.
pub open spec fn first_space_from(s: Seq<char>, p: int) -> int
    decreases s.len() - p,
{
    if p < 0 || p >= s.len() {
        s.len() as int
    } else if !is_space(s[p]) {
        first_space_from(s, p + 1)
    } else {
        p
    }
}

/// The first whitespace-separated token at or after position `p` in `s`.
pub open spec fn token_after(s: Seq<char>, p: int) -> Seq<char> {
    s.subrange(first_non_space_from(s, p), first_space_from(s, first_non_space_from(s, p)))
}

/// A decimal digit.
pub open spec fn is_digit(c: char) -> bool {
    48 <= c as u32 <= 57
}

/// The value of a decimal digit.
pub open spec fn digit_val(c: char) -> int {
    c as u32 - 48
}

/// Whether `t` consists of decimal digits only.
pub open spec fn all_digits(t: Seq<char>) -> bool {
    forall|i: int| 0 <= i < t.len() ==> is_digit(t[i])
}

/// The number the digit string `t` denotes.
pub open spec fn digits_val(t: Seq<char>) -> int
    decreases t.len(),
{
    if t.len() == 0 {
        0
    } else {
        digits_val(t.drop_last()) * 10 + digit_val(t.last())
    }
}

/// `t` without an optional leading plus sign.
pub open spec fn numeric_part(t: Seq<char>) -> Seq<char> {
    if t.len() > 0 && t[0] == '+' {
        t.drop_first()
    } else {
        t
    }
}

/// The resume index the token `t` denotes: its numeric value when it is a
/// non-empty digit string (after an optional plus sign) that fits the
/// machine, and zero otherwise.
pub open spec fn parsed_index(t: Seq<char>) -> int {
    let np = numeric_part(t);
    if np.len() > 0 && all_digits(np) && digits_val(np) <= usize::MAX as int {
        digits_val(np)
    } else {
        0
    }
}

/// The resume index a header line denotes: the token after the first
/// marker occurrence, parsed; no value when the marker is absent.
pub open spec fn header_resume(s: Seq<char>) -> Option<int> {
    if marker_pos(s) < s.len() {
        Some(parsed_index(token_after(s, marker_pos(s) + marker().len())))
    } else {
        None
    }
}

proof fn lemma_marker_pos_from_found(s: Seq<char>, p0: int, p: int)
    requires
        0 <= p0 <= p,
        is_marker_at(s, p),
        forall|q: int| p0 <= q < p ==> !is_marker_at(s, q),
    ensures
        marker_pos_from(s, p0) == p,
    decreases p - p0,
{
    reveal_strlit("typing-reader:");
    assert(marker().len() == 14);
    if p0 == p {
    } else {
        lemma_marker_pos_from_found(s, p0 + 1, p);
    }
}

proof fn lemma_marker_pos_valid(s: Seq<char>, p0: int)
    requires
        0 <= p0,
    ensures
        marker_pos_from(s, p0) == s.len() || is_marker_at(s, marker_pos_from(s, p0)),
    decreases s.len() - p0 + 1,
{
    if p0 < s.len() && !is_marker_at(s, p0) {
        lemma_marker_pos_valid(s, p0 + 1);
    }
}

proof fn lemma_marker_pos_from_none(s: Seq<char>, p0: int)
    requires
        0 <= p0,
        forall|q: int| p0 <= q < s.len() ==> !is_marker_at(s, q),
    ensures
        marker_pos_from(s, p0) == s.len(),
    decreases s.len() - p0 + 1,
{
    if p0 < s.len() {
        lemma_marker_pos_from_none(s, p0 + 1);
    }
}

proof fn lemma_first_non_space_from_at(s: Seq<char>, p0: int, q: int)
    requires
        0 <= p0 <= q <= s.len(),
        forall|x: int| p0 <= x < q ==> is_space(s[x]),
        q == s.len() || !is_space(s[q]),
    ensures
        first_non_space_from(s, p0) == q,
    decreases q - p0,
{
    if p0 < q {
        lemma_first_non_space_from_at(s, p0 + 1, q);
    }
}

proof fn lemma_first_space_from_at(s: Seq<char>, p0: int, q: int)
    requires
        0 <= p0 <= q <= s.len(),
        forall|x: int| p0 <= x < q ==> !is_space(s[x]),
        q == s.len() || is_space(s[q]),
    ensures
        first_space_from(s, p0) == q,
    decreases q - p0,
{
    if p0 < q {
        lemma_first_space_from_at(s, p0 + 1, q);
    }
}

proof fn lemma_digits_val_nonneg(t: Seq<char>)
    requires
        all_digits(t),
    ensures
        digits_val(t) >= 0,
    decreases t.len(),
{
    if t.len() > 0 {
        assert(all_digits(t.drop_last()));
        lemma_digits_val_nonneg(t.drop_last());
    }
}

/// A digit string's value is at least the value of any of its prefixes.
proof fn lemma_digits_val_grows(t: Seq<char>, i: int)
    requires
        0 <= i <= t.len(),
        all_digits(t),
    ensures
        digits_val(t) >= digits_val(t.take(i)),
    decreases t.len() - i,
{
    if i == t.len() {
        assert(t.take(i) =~= t);
    } else {
        assert(t.take(i + 1).drop_last() =~= t.take(i));
        assert(t.take(i + 1).last() == t[i]);
        assert(all_digits(t.take(i)));
        lemma_digits_val_nonneg(t.take(i));
        assert(digits_val(t.take(i + 1)) >= digits_val(t.take(i)));
        lemma_digits_val_grows(t, i + 1);
    }
}

/// Whether the marker occurs in `line` at position `p`.
fn marker_match_at(line: &str, p: usize) -> (r: bool)
    requires
        p + 14 <= line@.len(),
        line@.len() <= usize::MAX,
    ensures
        r == is_marker_at(line@, p as int),
{
    let mk = "typing-reader:";
    proof {
        reveal_strlit("typing-reader:");
        assert(mk@ == marker());
        assert(marker().len() == 14);
    }
    let mut k: usize = 0;
    while k < 14
        invariant
            0 <= k <= 14,
            mk@ == marker(),
            marker().len() == 14,
            p + 14 <= line@.len(),
            line@.len() <= usize::MAX,
            forall|x: int| 0 <= x < k ==> line@[p + x] == marker()[x],
        decreases 14 - k,
    {
        if line.get_char(p + k) != mk.get_char(k) {
            proof {
                if is_marker_at(line@, p as int) {
                    assert(line@.subrange(p as int, p + 14)[k as int] == line@[p + k]);
                }
            }
            return false;
        }
        k = k + 1;
    }
    proof {
        assert(line@.subrange(p as int, p + 14) =~= marker());
    }
    true
}

/// The position of the first marker occurrence in `line`, if any.
fn find_marker(line: &str) -> (r: Option<usize>)
    ensures
        line@.len() <= usize::MAX,
        r is Some ==> r->0 == marker_pos(line@) && marker_pos(line@) < line@.len(),
        r is None ==> marker_pos(line@) == line@.len(),
{
    let n = line.unicode_len();
    proof {
        reveal_strlit("typing-reader:");
        assert(marker().len() == 14);
    }
    if n >= 14 {
        let mut p: usize = 0;
        while p <= n - 14
            invariant
                0 <= p <= n - 13,
                n >= 14,
                n == line@.len(),
                marker().len() == 14,
                forall|q: int| 0 <= q < p ==> !is_marker_at(line@, q),
            decreases n - p,
        {
            if marker_match_at(line, p) {
                proof {
                    lemma_marker_pos_from_found(line@, 0, p as int);
                }
                return Some(p);
            }
            p = p + 1;
        }
        proof {
            assert forall|q: int| 0 <= q < line@.len() implies !is_marker_at(line@, q) by {
                if q >= p {
                    assert(q + 14 > n);
                }
            }
            lemma_marker_pos_from_none(line@, 0);
        }
    } else {
        proof {
            assert forall|q: int| 0 <= q < line@.len() implies !is_marker_at(line@, q) by {
                assert(q + 14 > n);
            }
            lemma_marker_pos_from_none(line@, 0);
        }
    }
    None
}

/// Whether `c` separates tokens.
fn is_space_exec(c: char) -> (r: bool)
    ensures
        r == is_space(c),
{
    c == ' ' || c == '\t' || c == '\r' || c == '\n'
}

/// The first position at or after `from` holding a non-space.
fn scan_non_space(line: &str, from: usize) -> (q: usize)
    requires
        from <= line@.len(),
    ensures
        q == first_non_space_from(line@, from as int),
        from <= q <= line@.len(),
{
    let n = line.unicode_len();
    let mut q = from;
    while q < n && is_space_exec(line.get_char(q))
        invariant
            from <= q <= n,
            n == line@.len(),
            forall|x: int| from <= x < q ==> is_space(line@[x]),
        decreases n - q,
    {
        q = q + 1;
    }
    proof {
        lemma_first_non_space_from_at(line@, from as int, q as int);
    }
    q
}

/// The first position at or after `from` holding a space.
fn scan_space(line: &str, from: usize) -> (q: usize)
    requires
        from <= line@.len(),
    ensures
        q == first_space_from(line@, from as int),
        from <= q <= line@.len(),
{
    let n = line.unicode_len();
    let mut q = from;
    while q < n && !is_space_exec(line.get_char(q))
        invariant
            from <= q <= n,
            n == line@.len(),
            forall|x: int| from <= x < q ==> !is_space(line@[x]),
        decreases n - q,
    {
        q = q + 1;
    }
    proof {
        lemma_first_space_from_at(line@, from as int, q as int);
    }
    q
}

/// Parse `token` as a resume index, yielding zero for anything that is not
/// a plain decimal number that fits the machine.
fn parse_index(token: &str) -> (r: usize)
    ensures
        r == parsed_index(token@),
{
    let n = token.unicode_len();
    let start: usize = if n > 0 && token.get_char(0) == '+' {
        1
    } else {
        0
    };
    let ghost np = numeric_part(token@);
    proof {
        assert(np =~= token@.skip(start as int));
    }
    if n == start {
        return 0;
    }
    let mut val: usize = 0;
    let mut i: usize = start;
    while i < n
        invariant
            start <= i <= n,
            n == token@.len(),
            start <= 1,
            np == numeric_part(token@),
            np =~= token@.skip(start as int),
            forall|x: int| 0 <= x < i - start ==> is_digit(np[x]),
            val == digits_val(np.take(i - start)),
        decreases n - i,
    {
        let c = token.get_char(i);
        let u = c as u32;
        proof {
            assert(np[i - start] == token@[i as int]);
        }
        if u < 48 || u > 57 {
            // Not a plain decimal number.
            assert(!all_digits(np));
            return 0;
        }
        let d = (u - 48) as usize;
        proof {
            assert(np.take(i - start + 1).drop_last() =~= np.take(i - start));
            assert(np.take(i - start + 1).last() == np[i - start]);
        }
        if val > usize::MAX / 10 || (val == usize::MAX / 10 && d > usize::MAX % 10) {
            // The number does not fit the machine.
            proof {
                vstd::arithmetic::div_mod::lemma_fundamental_div_mod(usize::MAX as int, 10);
                assert(digits_val(np.take(i - start + 1)) > usize::MAX as int);
                if all_digits(np) {
                    lemma_digits_val_grows(np, i - start + 1);
                }
            }
            return 0;
        }
        proof {
            vstd::arithmetic::div_mod::lemma_fundamental_div_mod(usize::MAX as int, 10);
        }
        val = val * 10 + d;
        i = i + 1;
    }
    proof {
        assert(np.take(n - start) =~= np);
        assert(np.len() > 0);
        assert(all_digits(np));
        lemma_digits_val_nonneg(np);
    }
    val
}

/// Recover the resume index from loaded lines and strip the header line.
///
/// When the first line holds the marker, the token after it is parsed as
/// the resume index — zero when it is not a usable number — and the first
/// line is dropped; without a marker the lines are kept whole and the
/// index is zero.
pub fn load(lines: Vec<String>) -> (r: (usize, Vec<String>))
    ensures
        lines@.len() == 0 ==> r.0 == 0 && r.1@ == lines@,
        lines@.len() > 0 && header_resume(lines.deep_view()[0]) is None ==> r.0 == 0
            && r.1.deep_view() == lines.deep_view(),
        lines@.len() > 0 && header_resume(lines.deep_view()[0]) is Some ==> r.0 as int
            == header_resume(lines.deep_view()[0])->0 && r.1.deep_view()
            == lines.deep_view().drop_first(),
{
    let mut lines = lines;
    if lines.len() == 0 {
        return (0, lines);
    }
    proof {
        assert(lines.deep_view()[0] == lines@[0]@);
    }
    let line0: &str = lines[0].as_str();
    let found = find_marker(line0);
    match found {
        Option::None => {
            proof {
                assert(header_resume(lines.deep_view()[0]) is None);
            }
            (0, lines)
        },
        Option::Some(p) => {
            proof {
                reveal_strlit("typing-reader:");
                assert(marker().len() == 14);
                lemma_marker_pos_valid(line0@, 0);
                assert(is_marker_at(line0@, p as int));
            }
            let q = scan_non_space(line0, p + 14);
            let e = scan_space(line0, q);
            let token: &str = line0.substring_char(q, e);
            let idx = parse_index(token);
            proof {
                assert(token@ == token_after(line0@, p + 14));
                assert(header_resume(lines.deep_view()[0]) == Some(
                    parsed_index(token_after(line0@, p + 14)),
                ));
            }
            let ghost old_lines = lines.deep_view();
            lines.remove(0);
            proof {
                assert forall|x: int| 0 <= x < lines@.len() implies lines.deep_view()[x]
                    == old_lines.drop_first()[x] by {
                    assert(lines.deep_view()[x] == lines@[x]@);
                }
                assert(lines.deep_view() =~= old_lines.drop_first());
            }
            (idx, lines)
        },
    }
}

/// The decimal digit character for `d`.
pub open spec fn digit_char(d: int) -> char {
    if d == 0 {
        '0'
    } else if d == 1 {
        '1'
    } else if d == 2 {
        '2'
    } else if d == 3 {
        '3'
    } else if d == 4 {
        '4'
    } else if d == 5 {
        '5'
    } else if d == 6 {
        '6'
    } else if d == 7 {
        '7'
    } else if d == 8 {
        '8'
    } else {
        '9'
    }
}

/// The decimal digits of `n`, most significant first.
pub open spec fn dec_digits(n: int) -> Seq<char>
    recommends
        n >= 0,
    decreases n,
{
    if n < 10 {
        seq![digit_char(n)]
    } else {
        dec_digits(n / 10).push(digit_char(n % 10))
    }
}

/// The lines of `ls` joined by line breaks.
pub open spec fn join_lines(ls: Seq<Seq<char>>) -> Seq<char>
    decreases ls.len(),
{
    if ls.len() == 0 {
        Seq::<char>::empty()
    } else if ls.len() == 1 {
        ls[0]
    } else {
        join_lines(ls.drop_last()) + seq!['\n'] + ls.last()
    }
}

/// The full file content for lines `ls` resumed at `idx`: a header line of
/// the marker and the index, then the lines, newline-joined.
pub open spec fn save_content(ls: Seq<Seq<char>>, idx: int) -> Seq<char> {
    let header = marker() + seq![' '] + dec_digits(idx);
    if ls.len() == 0 {
        header
    } else {
        header + seq!['\n'] + join_lines(ls)
    }
}

/// The decimal digits of a number denote that number again, and nothing
/// in them is a sign or a separator.
proof fn lemma_dec_digits_value(n: int)
    requires
        0 <= n,
    ensures
        dec_digits(n).len() >= 1,
        all_digits(dec_digits(n)),
        digits_val(dec_digits(n)) == n,
    decreases n,
{
    if n < 10 {
        assert(is_digit(digit_char(n)));
        assert(digit_val(digit_char(n)) == n);
        assert(dec_digits(n).drop_last() =~= Seq::<char>::empty());
        assert(digits_val(Seq::<char>::empty()) == 0);
        assert(dec_digits(n).last() == digit_char(n));
        assert(digits_val(dec_digits(n)) == digits_val(dec_digits(n).drop_last()) * 10
            + digit_val(dec_digits(n).last()));
    } else {
        lemma_dec_digits_value(n / 10);
        let d = dec_digits(n / 10);
        assert(d.push(digit_char(n % 10)).drop_last() =~= d);
        assert(is_digit(digit_char(n % 10)));
        assert(digit_val(digit_char(n % 10)) == n % 10);
        assert forall|i: int| 0 <= i < dec_digits(n).len() implies is_digit(
            dec_digits(n)[i],
        ) by {
            if i < d.len() {
                assert(dec_digits(n)[i] == d[i]);
            }
        }
        vstd::arithmetic::div_mod::lemma_fundamental_div_mod(n, 10);
        assert(dec_digits(n).drop_last() =~= d);
        assert(dec_digits(n).last() == digit_char(n % 10));
        assert(digits_val(dec_digits(n)) == digits_val(dec_digits(n).drop_last()) * 10
            + digit_val(dec_digits(n).last()));
        assert(digits_val(dec_digits(n)) == (n / 10) * 10 + n % 10);
    }
}

/// The header that [`save`] writes reads back: parsing the header line
/// `"typing-reader: "` followed by the digits of `idx` recovers exactly
/// `idx`. Together with the contracts of [`save`] and [`load`], the resume
/// index survives a save-and-load round trip.
pub proof fn lemma_header_round_trip(idx: int)
    requires
        0 <= idx <= usize::MAX,
    ensures
        header_resume(marker() + seq![' '] + dec_digits(idx)) == Some(idx),
{
    reveal_strlit("typing-reader:");
    assert(marker().len() == 14);
    let ds = dec_digits(idx);
    lemma_dec_digits_value(idx);
    let h = marker() + seq![' '] + ds;
    // The marker opens the line, so its first occurrence is position 0.
    assert(h.subrange(0, 14) =~= marker());
    assert(is_marker_at(h, 0));
    lemma_marker_pos_from_found(h, 0, 0);
    assert(marker_pos(h) == 0);
    // One space follows the marker, then the digits reach the line's end.
    assert(h[14] == ' ');
    assert forall|x: int| 15 <= x < h.len() implies !is_space(h[x]) by {
        assert(h[x] == ds[x - 15]);
        assert(is_digit(ds[x - 15]));
    }
    lemma_first_non_space_from_at(h, 14, 15);
    lemma_first_space_from_at(h, 15, h.len() as int);
    assert(token_after(h, 14) =~= ds);
    // The digits parse back to the index.
    assert(ds[0] != '+');
    assert(numeric_part(ds) == ds);
    assert(parsed_index(ds) == idx);
}

/// The decimal digit character for `d`, executable.
fn digit_char_exec(d: usize) -> (c: char)
    requires
        d < 10,
    ensures
        c == digit_char(d as int),
{
    if d == 0 {
        '0'
    } else if d == 1 {
        '1'
    } else if d == 2 {
        '2'
    } else if d == 3 {
        '3'
    } else if d == 4 {
        '4'
    } else if d == 5 {
        '5'
    } else if d == 6 {
        '6'
    } else if d == 7 {
        '7'
    } else if d == 8 {
        '8'
    } else {
        '9'
    }
}

/// Append the decimal digits of `n` to `s`.
fn push_digits(s: &mut String, n: usize)
    ensures
        final(s)@ == old(s)@ + dec_digits(n as int),
    decreases n,
{
    if n < 10 {
        s.push(digit_char_exec(n));
        proof {
            assert(final(s)@ =~= old(s)@ + dec_digits(n as int));
        }
    } else {
        push_digits(s, n / 10);
        s.push(digit_char_exec(n % 10));
        proof {
            assert(final(s)@ =~= old(s)@ + dec_digits(n as int));
        }
    }
}

/// Build the file content that persists `lines` with resume index
/// `line_idx`: the marker header first, then every line, newline-joined.
pub fn save(lines: &Vec<String>, line_idx: usize) -> (content: String)
    ensures
        content@ == save_content(lines.deep_view(), line_idx as int),
{
    let ghost dl = lines.deep_view();
    let mut content: String = "typing-reader: ".to_owned();
    proof {
        reveal_strlit("typing-reader:");
        reveal_strlit("typing-reader: ");
        assert(content@ =~= marker() + seq![' ']);
    }
    push_digits(&mut content, line_idx);
    let ghost header = marker() + seq![' '] + dec_digits(line_idx as int);
    let n = lines.len();
    let mut i: usize = 0;
    while i < n
        invariant
            0 <= i <= n,
            n == lines@.len(),
            dl == lines.deep_view(),
            dl.len() == lines@.len(),
            header == marker() + seq![' '] + dec_digits(line_idx as int),
            i == 0 ==> content@ == header,
            i > 0 ==> content@ == header + seq!['\n'] + join_lines(dl.take(i as int)),
        decreases n - i,
    {
        let ghost prev = content@;
        content.push('\n');
        content.append(lines[i].as_str());
        proof {
            assert(dl[i as int] == lines@[i as int]@);
            assert(content@ == prev + seq!['\n'] + dl[i as int]);
            if i == 0 {
                assert(join_lines(dl.take(1)) == dl.take(1)[0]);
                assert(dl.take(1)[0] == dl[0]);
                assert(content@ =~= header + seq!['\n'] + join_lines(dl.take(1)));
            } else {
                assert(dl.take(i + 1).drop_last() =~= dl.take(i as int));
                assert(dl.take(i + 1).last() == dl[i as int]);
                assert(join_lines(dl.take(i + 1)) == join_lines(dl.take(i as int)) + seq!['\n']
                    + dl[i as int]);
                assert(content@ =~= header + seq!['\n'] + join_lines(dl.take(i + 1)));
            }
        }
        i = i + 1;
    }
    proof {
        if n > 0 {
            assert(dl.take(n as int) =~= dl);
        }
    }
    content
}

} // verus!

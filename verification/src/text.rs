//! Verified text primitives: splitting on a separator, joining with a
//! separator, string equality, and decimal conversions.
//!
//! The system tools this crate talks to exchange colon- and
//! newline-delimited text, so these primitives carry the parsing
//! contracts of every other module.

use vstd::prelude::*;
use vstd::string::*;

verus! {

/// The pieces of `s` between occurrences of `sep`, in order.  There is
/// always at least one piece; a separator at either end or two adjacent
/// separators produce empty pieces, exactly as `str::split` does.
pub open spec fn split_char(s: Seq<char>, sep: char) -> Seq<Seq<char>>
    decreases s.len(),
{
    if s.len() == 0 {
        seq![Seq::<char>::empty()]
    } else if s[0] == sep {
        seq![Seq::<char>::empty()] + split_char(s.drop_first(), sep)
    } else {
        let rest = split_char(s.drop_first(), sep);
        seq![seq![s[0]] + rest[0]] + rest.drop_first()
    }
}

/// The pieces joined back together with `sep` between them.
pub open spec fn join_char(parts: Seq<Seq<char>>, sep: char) -> Seq<char>
    decreases parts.len(),
{
    if parts.len() == 0 {
        Seq::empty()
    } else if parts.len() == 1 {
        parts[0]
    } else {
        parts[0] + seq![sep] + join_char(parts.drop_first(), sep)
    }
}

pub proof fn lemma_split_len(s: Seq<char>, sep: char)
    ensures
        split_char(s, sep).len() >= 1,
    decreases s.len(),
{
    if s.len() > 0 {
        lemma_split_len(s.drop_first(), sep);
    }
}

/// A separator-free string splits into the single piece that is itself.
pub proof fn lemma_split_sep_free(s: Seq<char>, sep: char)
    requires
        !s.contains(sep),
    ensures
        split_char(s, sep) == seq![s],
    decreases s.len(),
{
    if s.len() == 0 {
        assert(s =~= Seq::<char>::empty());
        assert(split_char(s, sep) =~= seq![s]);
    } else {
        assert(s[0] != sep);
        assert(!s.drop_first().contains(sep)) by {
            assert forall|i: int| 0 <= i < s.drop_first().len() implies s.drop_first()[i]
                != sep by {
                assert(s.drop_first()[i] == s[i + 1]);
            }
        }
        lemma_split_sep_free(s.drop_first(), sep);
        assert(split_char(s, sep) =~= seq![seq![s[0]] + s.drop_first()]);
        assert(seq![s[0]] + s.drop_first() =~= s);
        assert(split_char(s, sep) =~= seq![s]);
    }
}

/// Splitting distributes over a separator: the pieces of `x : y` are the
/// pieces of `x` followed by the pieces of `y`.
pub proof fn lemma_split_concat(x: Seq<char>, y: Seq<char>, sep: char)
    ensures
        split_char(x + seq![sep] + y, sep) == split_char(x, sep) + split_char(y, sep),
    decreases x.len(),
{
    let z = x + seq![sep] + y;
    if x.len() == 0 {
        assert(z =~= seq![sep] + y);
        assert(z[0] == sep);
        assert(z.drop_first() =~= y);
        assert(split_char(z, sep) =~= seq![Seq::<char>::empty()] + split_char(y, sep));
        assert(split_char(x, sep) =~= seq![Seq::<char>::empty()]);
        assert(split_char(z, sep) =~= split_char(x, sep) + split_char(y, sep));
    } else {
        assert(z[0] == x[0]);
        assert(z.drop_first() =~= x.drop_first() + seq![sep] + y);
        lemma_split_concat(x.drop_first(), y, sep);
        lemma_split_len(x.drop_first(), sep);
        lemma_split_len(y, sep);
        let rx = split_char(x.drop_first(), sep);
        let rz = split_char(z.drop_first(), sep);
        assert(rz == rx + split_char(y, sep));
        if x[0] == sep {
            assert(split_char(z, sep) =~= seq![Seq::<char>::empty()] + rz);
            assert(split_char(x, sep) =~= seq![Seq::<char>::empty()] + rx);
            assert(split_char(z, sep) =~= split_char(x, sep) + split_char(y, sep));
        } else {
            assert(rz[0] == rx[0]);
            assert(rz.drop_first() =~= rx.drop_first() + split_char(y, sep));
            assert(split_char(z, sep) =~= seq![seq![z[0]] + rz[0]] + rz.drop_first());
            assert(split_char(x, sep) =~= seq![seq![x[0]] + rx[0]] + rx.drop_first());
            assert(split_char(z, sep) =~= split_char(x, sep) + split_char(y, sep));
        }
    }
}

/// Joining the pieces of a split restores the original string.
pub proof fn lemma_join_split(s: Seq<char>, sep: char)
    ensures
        join_char(split_char(s, sep), sep) == s,
    decreases s.len(),
{
    if s.len() == 0 {
    } else if s[0] == sep {
        lemma_join_split(s.drop_first(), sep);
        lemma_split_len(s.drop_first(), sep);
        let parts = split_char(s, sep);
        assert(parts.drop_first() =~= split_char(s.drop_first(), sep));
        assert(parts.len() >= 2);
        assert(join_char(parts, sep) =~= Seq::<char>::empty() + seq![sep] + join_char(
            split_char(s.drop_first(), sep),
            sep,
        ));
        assert(join_char(parts, sep) =~= s);
    } else {
        lemma_join_split(s.drop_first(), sep);
        lemma_split_len(s.drop_first(), sep);
        let rest = split_char(s.drop_first(), sep);
        let parts = split_char(s, sep);
        if rest.len() == 1 {
            assert(parts =~= seq![seq![s[0]] + rest[0]]);
            assert(join_char(parts, sep) == seq![s[0]] + rest[0]);
            assert(join_char(rest, sep) == rest[0]);
            assert(join_char(parts, sep) =~= s);
        } else {
            assert(parts[0] == seq![s[0]] + rest[0]);
            assert(parts.drop_first() =~= rest.drop_first());
            assert(join_char(parts, sep) == parts[0] + seq![sep] + join_char(
                rest.drop_first(),
                sep,
            ));
            assert(join_char(rest, sep) == rest[0] + seq![sep] + join_char(
                rest.drop_first(),
                sep,
            ));
            assert(join_char(parts, sep) =~= seq![s[0]] + join_char(rest, sep));
            assert(join_char(parts, sep) =~= s);
        }
    }
}

/// Appending one more piece extends the join by a separator and the piece.
pub proof fn lemma_join_push(parts: Seq<Seq<char>>, p: Seq<char>, sep: char)
    requires
        parts.len() >= 1,
    ensures
        join_char(parts.push(p), sep) == join_char(parts, sep) + seq![sep] + p,
    decreases parts.len(),
{
    let all = parts.push(p);
    if parts.len() == 1 {
        assert(all.drop_first() =~= seq![p]);
        assert(join_char(seq![p], sep) == p);
        assert(all[0] == parts[0]);
        assert(join_char(all, sep) == parts[0] + seq![sep] + p);
    } else {
        assert(all.drop_first() =~= parts.drop_first().push(p));
        lemma_join_push(parts.drop_first(), p, sep);
        assert(join_char(all, sep) == parts[0] + seq![sep] + (join_char(
            parts.drop_first(),
            sep,
        ) + seq![sep] + p));
        assert(join_char(all, sep) =~= join_char(parts, sep) + seq![sep] + p);
    }
}

/// Character-wise string equality, proved against the views.
pub fn str_eq(a: &str, b: &str) -> (r: bool)
    ensures
        r == (a@ == b@),
{
    let alen = a.unicode_len();
    let blen = b.unicode_len();
    if alen != blen {
        return false;
    }
    let mut i: usize = 0;
    while i < alen
        invariant
            alen == a@.len(),
            alen == b@.len(),
            i <= alen,
            forall|j: int| 0 <= j < i ==> a@[j] == b@[j],
        decreases alen - i,
    {
        if a.get_char(i) != b.get_char(i) {
            return false;
        }
        i += 1;
    }
    proof {
        assert(a@ =~= b@);
    }
    true
}

/// `str::split`, yielding owned pieces.
pub fn split_str(s: &str, sep: char) -> (r: Vec<String>)
    ensures
        r.deep_view() == split_char(s@, sep),
{
    let len = s.unicode_len();
    let mut r: Vec<String> = Vec::new();
    let mut start: usize = 0;
    let mut i: usize = 0;
    proof {
        assert(s@.subrange(0, len as int) =~= s@);
        assert(r.deep_view() + split_char(s@, sep) =~= split_char(s@, sep));
    }
    while i < len
        invariant
            len == s@.len(),
            start <= i <= len,
            forall|j: int| start <= j < i ==> s@[j] != sep,
            split_char(s@, sep) == r.deep_view() + split_char(
                s@.subrange(start as int, len as int),
                sep,
            ),
        decreases len - i,
    {
        if s.get_char(i) == sep {
            let ghost r0 = r.deep_view();
            let ghost piece = s@.subrange(start as int, i as int);
            let piece_str = s.substring_char(start, i).to_owned();
            r.push(piece_str);
            proof {
                assert(r.deep_view() =~= r0.push(piece));
                assert(s@.subrange(start as int, len as int) =~= piece + seq![sep] + s@.subrange(
                    i + 1,
                    len as int,
                ));
                lemma_split_concat(piece, s@.subrange(i + 1, len as int), sep);
                assert(!piece.contains(sep)) by {
                    assert forall|j: int| 0 <= j < piece.len() implies piece[j] != sep by {
                        assert(piece[j] == s@[start + j]);
                    }
                }
                lemma_split_sep_free(piece, sep);
                assert(split_char(s@.subrange(start as int, len as int), sep) =~= seq![piece]
                    + split_char(s@.subrange(i + 1, len as int), sep));
                assert(r0.push(piece) + split_char(s@.subrange(i + 1, len as int), sep) =~= r0 + (
                seq![piece] + split_char(s@.subrange(i + 1, len as int), sep)));
            }
            start = i + 1;
        }
        i += 1;
    }
    let ghost r0 = r.deep_view();
    let ghost piece = s@.subrange(start as int, len as int);
    let piece_str = s.substring_char(start, len).to_owned();
    r.push(piece_str);
    proof {
        assert(r.deep_view() =~= r0.push(piece));
        assert(!piece.contains(sep)) by {
            assert forall|j: int| 0 <= j < piece.len() implies piece[j] != sep by {
                assert(piece[j] == s@[start + j]);
            }
        }
        lemma_split_sep_free(piece, sep);
        assert(r0.push(piece) =~= r0 + seq![piece]);
        assert(r.deep_view() =~= split_char(s@, sep));
    }
    r
}

/// The pieces `parts[from..to]`, joined with `:` between them.
pub fn join_with_colons(parts: &Vec<String>, from: usize, to: usize) -> (r: String)
    requires
        from <= to <= parts.len(),
    ensures
        r@ == join_char(parts.deep_view().subrange(from as int, to as int), ':'),
{
    let mut r = String::new();
    if from >= to {
        proof {
            assert(parts.deep_view().subrange(from as int, to as int).len() == 0);
        }
        return r;
    }
    r.append(parts[from].as_str());
    proof {
        assert(parts.deep_view().subrange(from as int, from + 1) =~= seq![
            parts.deep_view()[from as int],
        ]);
        assert(r@ =~= parts.deep_view()[from as int]);
    }
    let mut k: usize = from + 1;
    while k < to
        invariant
            from < k <= to <= parts.len(),
            r@ == join_char(parts.deep_view().subrange(from as int, k as int), ':'),
        decreases to - k,
    {
        let ghost done = parts.deep_view().subrange(from as int, k as int);
        r.append(":");
        r.append(parts[k].as_str());
        proof {
            reveal_strlit(":");
            assert(":"@ =~= seq![':']);
            lemma_join_push(done, parts.deep_view()[k as int], ':');
            assert(parts.deep_view().subrange(from as int, k + 1) =~= done.push(
                parts.deep_view()[k as int],
            ));
            assert(r@ =~= join_char(done, ':') + seq![':'] + parts.deep_view()[k as int]);
        }
        k += 1;
    }
    r
}

/// The first occurrence of `c` in `s`, if any.
pub fn find_char(s: &str, c: char) -> (r: Option<usize>)
    ensures
        match r {
            Some(i) => i < s@.len() && s@[i as int] == c && forall|j: int| 0 <= j < i ==> s@[j] != c,
            None => !s@.contains(c),
        },
{
    let len = s.unicode_len();
    let mut i: usize = 0;
    while i < len
        invariant
            len == s@.len(),
            i <= len,
            forall|j: int| 0 <= j < i ==> s@[j] != c,
        decreases len - i,
    {
        if s.get_char(i) == c {
            return Some(i);
        }
        i += 1;
    }
    proof {
        assert(!s@.contains(c));
    }
    None
}

/// The position of the last occurrence of `c` in `s`, or minus one.
pub open spec fn last_pos(s: Seq<char>, c: char) -> int
    decreases s.len(),
{
    if s.len() == 0 {
        -1
    } else if s.last() == c {
        s.len() - 1
    } else {
        last_pos(s.drop_last(), c)
    }
}

/// The last occurrence of `c` in `s`, if any.
pub fn rfind_char(s: &str, c: char) -> (r: Option<usize>)
    ensures
        match r {
            Some(i) => i == last_pos(s@, c) && i < s@.len() && s@[i as int] == c,
            None => last_pos(s@, c) == -1,
        },
{
    let len = s.unicode_len();
    let mut i: usize = len;
    proof {
        assert(s@.take(len as int) =~= s@);
    }
    while i > 0
        invariant
            len == s@.len(),
            i <= len,
            last_pos(s@, c) == last_pos(s@.take(i as int), c),
        decreases i,
    {
        let ghost before = s@.take(i as int);
        proof {
            assert(before.drop_last() =~= s@.take(i - 1));
            assert(before.last() == s@[i - 1]);
        }
        if s.get_char(i - 1) == c {
            return Some(i - 1);
        }
        i -= 1;
    }
    proof {
        assert(s@.take(0) =~= Seq::<char>::empty());
    }
    None
}

/// `p` is a suffix of `s`.
pub open spec fn is_suffix(s: Seq<char>, p: Seq<char>) -> bool {
    s.len() >= p.len() && s.subrange(s.len() - p.len(), s.len() as int) == p
}

/// `str::ends_with` for a literal suffix.
pub fn ends_with_str(s: &str, p: &str) -> (r: bool)
    ensures
        r == is_suffix(s@, p@),
{
    let slen = s.unicode_len();
    let plen = p.unicode_len();
    if slen < plen {
        return false;
    }
    let tail = s.substring_char(slen - plen, slen);
    str_eq(tail, p)
}

/// The pieces `parts[from..to]`, joined with a single space between
/// them.
pub fn join_with_spaces(parts: &Vec<String>, from: usize, to: usize) -> (r: String)
    requires
        from <= to <= parts.len(),
    ensures
        r@ == join_char(parts.deep_view().subrange(from as int, to as int), ' '),
{
    let mut r = String::new();
    if from >= to {
        proof {
            assert(parts.deep_view().subrange(from as int, to as int).len() == 0);
        }
        return r;
    }
    r.append(parts[from].as_str());
    proof {
        assert(parts.deep_view().subrange(from as int, from + 1) =~= seq![
            parts.deep_view()[from as int],
        ]);
        assert(r@ =~= parts.deep_view()[from as int]);
    }
    let mut k: usize = from + 1;
    while k < to
        invariant
            from < k <= to <= parts.len(),
            r@ == join_char(parts.deep_view().subrange(from as int, k as int), ' '),
        decreases to - k,
    {
        let ghost done = parts.deep_view().subrange(from as int, k as int);
        r.append(" ");
        r.append(parts[k].as_str());
        proof {
            reveal_strlit(" ");
            assert(" "@ =~= seq![' ']);
            lemma_join_push(done, parts.deep_view()[k as int], ' ');
            assert(parts.deep_view().subrange(from as int, k + 1) =~= done.push(
                parts.deep_view()[k as int],
            ));
            assert(r@ =~= join_char(done, ' ') + seq![' '] + parts.deep_view()[k as int]);
        }
        k += 1;
    }
    r
}

/// The code point of `c` with an ASCII capital folded to lower case.
pub open spec fn lower_code(c: char) -> u32 {
    if 65 <= c as u32 <= 90 {
        (c as u32 + 32) as u32
    } else {
        c as u32
    }
}

/// The two strings are equal up to ASCII case, as
/// `str::eq_ignore_ascii_case` compares them.
pub open spec fn eq_ascii_ci(a: Seq<char>, b: Seq<char>) -> bool {
    a.len() == b.len() && forall|i: int| 0 <= i < a.len() ==> lower_code(a[i]) == lower_code(b[i])
}

/// `str::eq_ignore_ascii_case`.
pub fn str_eq_ignore_ascii_case(a: &str, b: &str) -> (r: bool)
    ensures
        r == eq_ascii_ci(a@, b@),
{
    let alen = a.unicode_len();
    let blen = b.unicode_len();
    if alen != blen {
        return false;
    }
    let mut i: usize = 0;
    while i < alen
        invariant
            alen == a@.len(),
            alen == b@.len(),
            i <= alen,
            forall|j: int| 0 <= j < i ==> lower_code(a@[j]) == lower_code(b@[j]),
        decreases alen - i,
    {
        let ca: u32 = a.get_char(i) as u32;
        let cb: u32 = b.get_char(i) as u32;
        let fa: u32 = if 65 <= ca && ca <= 90 {
            ca + 32
        } else {
            ca
        };
        let fb: u32 = if 65 <= cb && cb <= 90 {
            cb + 32
        } else {
            cb
        };
        if fa != fb {
            return false;
        }
        i += 1;
    }
    true
}

/// What `str::parse::<u32>` yields on success: a digit run, optionally
/// plus-signed, denoting a value that fits.
pub open spec fn parsed_u32_opt(s: Seq<char>) -> Option<u32> {
    let d = unsigned_body(s);
    if all_digits(d) && digits_val(d) <= 0xffff_ffff {
        Some(digits_val(d) as u32)
    } else {
        None
    }
}

pub fn parse_u32_opt(s: &str) -> (r: Option<u32>)
    ensures
        r == parsed_u32_opt(s@),
{
    let len = s.unicode_len();
    let from: usize = if len > 0 && s.get_char(0) == '+' {
        1
    } else {
        0
    };
    proof {
        assert(s@.subrange(from as int, len as int) =~= unsigned_body(s@));
    }
    parse_digits_capped(s, from, 0xffff_ffffu32)
}

/// The position of the first occurrence of `sub` in `s`, or minus one.
pub open spec fn first_sub(s: Seq<char>, sub: Seq<char>) -> int
    decreases s.len(),
{
    if is_prefix(s, sub) {
        0
    } else if s.len() == 0 {
        -1
    } else {
        let r = first_sub(s.drop_first(), sub);
        if r < 0 {
            -1
        } else {
            r + 1
        }
    }
}

proof fn lemma_first_sub_at(s: Seq<char>, sub: Seq<char>, i: int)
    requires
        0 <= i,
        i + sub.len() <= s.len(),
        s.subrange(i, i + sub.len()) == sub,
        forall|j: int| 0 <= j < i ==> #[trigger] s.subrange(j, j + sub.len()) != sub,
    ensures
        first_sub(s, sub) == i,
    decreases i,
{
    if i == 0 {
        assert(s.subrange(0, sub.len() as int) == sub);
        assert(is_prefix(s, sub));
    } else {
        assert(s.subrange(0, 0 + sub.len() as int) != sub);
        assert(s.subrange(0, sub.len() as int) != sub);
        assert(!is_prefix(s, sub));
        let t = s.drop_first();
        assert forall|j: int| 0 <= j < i - 1 implies #[trigger] t.subrange(j, j + sub.len())
            != sub by {
            assert(t.subrange(j, j + sub.len()) =~= s.subrange(j + 1, j + 1 + sub.len()));
        }
        assert(t.subrange(i - 1, i - 1 + sub.len()) =~= s.subrange(i, i + sub.len()));
        lemma_first_sub_at(t, sub, i - 1);
    }
}

proof fn lemma_first_sub_none(s: Seq<char>, sub: Seq<char>)
    requires
        forall|j: int|
            0 <= j <= s.len() - sub.len() ==> #[trigger] s.subrange(j, j + sub.len()) != sub,
    ensures
        first_sub(s, sub) == -1,
    decreases s.len(),
{
    if sub.len() <= s.len() {
        assert(s.subrange(0, 0 + sub.len() as int) != sub);
        assert(s.subrange(0, sub.len() as int) != sub);
    }
    assert(!is_prefix(s, sub));
    if s.len() > 0 {
        let t = s.drop_first();
        assert forall|j: int| 0 <= j <= t.len() - sub.len() implies #[trigger] t.subrange(
            j,
            j + sub.len(),
        ) != sub by {
            assert(t.subrange(j, j + sub.len()) =~= s.subrange(j + 1, j + 1 + sub.len()));
        }
        lemma_first_sub_none(t, sub);
    }
}

/// A found first occurrence lies within `s` and matches `sub` there.
pub proof fn lemma_first_sub_bounds(s: Seq<char>, sub: Seq<char>)
    ensures
        first_sub(s, sub) >= 0 ==> first_sub(s, sub) + sub.len() <= s.len() && s.subrange(
            first_sub(s, sub),
            first_sub(s, sub) + sub.len(),
        ) == sub,
    decreases s.len(),
{
    if is_prefix(s, sub) {
    } else if s.len() == 0 {
    } else {
        let t = s.drop_first();
        lemma_first_sub_bounds(t, sub);
        let r = first_sub(t, sub);
        if r >= 0 {
            assert(s.subrange(r + 1, r + 1 + sub.len()) =~= t.subrange(r, r + sub.len()));
        }
    }
}

/// The first occurrence of `sub` in `s`, if any.
pub fn find_substr(s: &str, sub: &str) -> (r: Option<usize>)
    ensures
        match r {
            Some(i) => first_sub(s@, sub@) == i,
            None => first_sub(s@, sub@) == -1,
        },
{
    let slen = s.unicode_len();
    let sublen = sub.unicode_len();
    if sublen > slen {
        proof {
            lemma_first_sub_none(s@, sub@);
        }
        return None;
    }
    if sublen == 0 {
        proof {
            assert(s@.subrange(0, 0) =~= sub@);
            assert(is_prefix(s@, sub@));
        }
        return Some(0);
    }
    let mut i: usize = 0;
    while i <= slen - sublen
        invariant
            slen == s@.len(),
            sublen == sub@.len(),
            0 < sublen <= slen,
            i <= slen - sublen + 1,
            forall|j: int| 0 <= j < i ==> #[trigger] s@.subrange(j, j + sub@.len()) != sub@,
        decreases slen - i,
    {
        let piece = s.substring_char(i, i + sublen);
        if str_eq(piece, sub) {
            proof {
                lemma_first_sub_at(s@, sub@, i as int);
            }
            return Some(i);
        }
        i += 1;
    }
    proof {
        assert forall|j: int| 0 <= j <= s@.len() - sub@.len() implies #[trigger] s@.subrange(
            j,
            j + sub@.len(),
        ) != sub@ by {
            assert(j < i);
        }
        lemma_first_sub_none(s@, sub@);
    }
    None
}

/// `s` with every occurrence of `p` removed, scanning left to right
/// without overlap, as `str::replace` with an empty replacement does.
pub open spec fn remove_substr_spec(s: Seq<char>, p: Seq<char>) -> Seq<char>
    decreases s.len(),
{
    if p.len() == 0 {
        s
    } else if is_prefix(s, p) {
        remove_substr_spec(s.skip(p.len() as int), p)
    } else if s.len() == 0 {
        s
    } else {
        seq![s[0]] + remove_substr_spec(s.drop_first(), p)
    }
}

/// `str::replace` of a literal pattern with nothing.
pub fn remove_substr(s: &str, p: &str) -> (r: String)
    ensures
        r@ == remove_substr_spec(s@, p@),
{
    let slen = s.unicode_len();
    let plen = p.unicode_len();
    if plen == 0 {
        return s.to_owned();
    }
    let mut r = String::new();
    let mut i: usize = 0;
    proof {
        assert(s@.subrange(0, slen as int) =~= s@);
        assert(r@ + remove_substr_spec(s@, p@) =~= remove_substr_spec(s@, p@));
    }
    while i < slen
        invariant
            slen == s@.len(),
            plen == p@.len(),
            plen > 0,
            i <= slen,
            remove_substr_spec(s@, p@) == r@ + remove_substr_spec(
                s@.subrange(i as int, slen as int),
                p@,
            ),
        decreases slen - i,
    {
        let ghost suffix = s@.subrange(i as int, slen as int);
        if plen <= slen - i && str_eq(s.substring_char(i, i + plen), p) {
            proof {
                assert(suffix.subrange(0, plen as int) =~= s@.subrange(i as int, i + plen));
                assert(is_prefix(suffix, p@));
                assert(suffix.skip(plen as int) =~= s@.subrange(i + plen, slen as int));
            }
            i += plen;
        } else {
            proof {
                if plen <= slen - i {
                    assert(suffix.subrange(0, plen as int) =~= s@.subrange(i as int, i + plen));
                    assert(!is_prefix(suffix, p@));
                } else {
                    assert(suffix.len() < p@.len());
                    assert(!is_prefix(suffix, p@));
                }
                assert(suffix.drop_first() =~= s@.subrange(i + 1, slen as int));
            }
            let c = s.get_char(i);
            push_char(&mut r, c);
            proof {
                assert(r@ + remove_substr_spec(s@.subrange(i + 1, slen as int), p@)
                    =~= remove_substr_spec(s@, p@));
            }
            i += 1;
        }
    }
    proof {
        assert(s@.subrange(slen as int, slen as int) =~= Seq::<char>::empty());
        assert(r@ + Seq::<char>::empty() =~= r@);
    }
    r
}

// ---------- lines ----------

/// A line with a trailing carriage return loses it, as `str::lines`
/// strips one before each line feed.
pub open spec fn strip_cr(l: Seq<char>) -> Seq<char> {
    if l.len() > 0 && l.last() == '\r' {
        l.drop_last()
    } else {
        l
    }
}

/// The lines of `s`, as `str::lines` yields them: pieces between line
/// feeds, a carriage return before each line feed stripped, and no
/// empty piece after a final line feed.
pub open spec fn lines_spec(s: Seq<char>) -> Seq<Seq<char>> {
    let raw = split_char(s, '\n');
    let main = Seq::new((raw.len() - 1) as nat, |k: int| strip_cr(raw[k]));
    if raw.last().len() == 0 {
        main
    } else {
        main.push(raw.last())
    }
}

pub fn lines_of(s: &str) -> (r: Vec<String>)
    ensures
        r.deep_view() == lines_spec(s@),
{
    let raw = split_str(s, '\n');
    proof {
        lemma_split_len(s@, '\n');
    }
    let mut r: Vec<String> = Vec::new();
    let n = raw.len();
    let ghost main = Seq::new((raw.deep_view().len() - 1) as nat, |k: int| strip_cr(raw.deep_view()[k]));
    let mut j: usize = 0;
    while j < n - 1
        invariant
            n == raw.len(),
            n >= 1,
            j <= n - 1,
            raw.deep_view() == split_char(s@, '\n'),
            main == Seq::new((raw.deep_view().len() - 1) as nat, |k: int| strip_cr(raw.deep_view()[k])),
            r.deep_view() == main.take(j as int),
        decreases n - j,
    {
        let ghost r0 = r.deep_view();
        let piece = &raw[j];
        let plen = piece.as_str().unicode_len();
        if plen > 0 && piece.as_str().get_char(plen - 1) == '\r' {
            r.push(piece.as_str().substring_char(0, plen - 1).to_owned());
            proof {
                assert(piece@.subrange(0, plen - 1) =~= piece@.drop_last());
            }
        } else {
            r.push(piece.clone());
        }
        proof {
            assert(r.deep_view() =~= r0.push(strip_cr(raw.deep_view()[j as int])));
            assert(r.deep_view() =~= main.take(j + 1));
        }
        j += 1;
    }
    let ghost r0 = r.deep_view();
    let last = &raw[n - 1];
    if last.as_str().unicode_len() > 0 {
        r.push(last.clone());
        proof {
            assert(r.deep_view() =~= r0.push(raw.deep_view().last()));
        }
    }
    proof {
        assert(main.take((n - 1) as int) =~= main);
        assert(r.deep_view() =~= lines_spec(s@));
    }
    r
}

// ---------- searching ----------

/// `p` is a prefix of `s`.
pub open spec fn is_prefix(s: Seq<char>, p: Seq<char>) -> bool {
    s.len() >= p.len() && s.subrange(0, p.len() as int) == p
}

/// `str::starts_with` for a literal prefix.
pub fn starts_with_str(s: &str, p: &str) -> (r: bool)
    ensures
        r == is_prefix(s@, p@),
{
    let slen = s.unicode_len();
    let plen = p.unicode_len();
    if slen < plen {
        return false;
    }
    let head = s.substring_char(0, plen);
    str_eq(head, p)
}

/// `sub` occurs somewhere in `s`.
pub open spec fn has_substring(s: Seq<char>, sub: Seq<char>) -> bool {
    exists|i: int| 0 <= i <= s.len() - sub.len() && #[trigger] s.subrange(i, i + sub.len()) == sub
}

/// `str::contains` for a literal needle.
pub fn contains_str(s: &str, sub: &str) -> (r: bool)
    ensures
        r == has_substring(s@, sub@),
{
    let slen = s.unicode_len();
    let sublen = sub.unicode_len();
    if sublen > slen {
        return false;
    }
    if sublen == 0 {
        proof {
            assert(s@.subrange(0, 0) =~= sub@);
            assert(s@.subrange(0, 0 + sub@.len() as int) == sub@);
        }
        return true;
    }
    let mut i: usize = 0;
    while i <= slen - sublen
        invariant
            slen == s@.len(),
            sublen == sub@.len(),
            0 < sublen <= slen,
            i <= slen - sublen + 1,
            forall|j: int| 0 <= j < i ==> #[trigger] s@.subrange(j, j + sub@.len()) != sub@,
        decreases slen - i,
    {
        let piece = s.substring_char(i, i + sublen);
        if str_eq(piece, sub) {
            proof {
                assert(s@.subrange(i as int, i + sub@.len() as int) == sub@);
            }
            return true;
        }
        i += 1;
    }
    proof {
        assert forall|j: int| 0 <= j <= s@.len() - sub@.len() implies #[trigger] s@.subrange(
            j,
            j + sub@.len(),
        ) != sub@ by {
            assert(j < i);
        }
    }
    false
}

// ---------- trimming ----------

/// The whitespace the system tools emit around their values.
pub open spec fn is_space(c: char) -> bool {
    c == ' ' || c == '\t' || c == '\n' || c == '\r'
}

/// `s` without leading whitespace.
pub open spec fn trim_left(s: Seq<char>) -> Seq<char>
    decreases s.len(),
{
    if s.len() > 0 && is_space(s[0]) {
        trim_left(s.drop_first())
    } else {
        s
    }
}

/// `s` without trailing whitespace.
pub open spec fn trim_right(s: Seq<char>) -> Seq<char>
    decreases s.len(),
{
    if s.len() > 0 && is_space(s.last()) {
        trim_right(s.drop_last())
    } else {
        s
    }
}

/// `s` without surrounding whitespace.
pub open spec fn trim_spec(s: Seq<char>) -> Seq<char> {
    trim_right(trim_left(s))
}

proof fn lemma_trim_left_at(s: Seq<char>, lo: int)
    requires
        0 <= lo <= s.len(),
        forall|j: int| 0 <= j < lo ==> is_space(s[j]),
        lo == s.len() || !is_space(s[lo]),
    ensures
        trim_left(s) == s.subrange(lo, s.len() as int),
    decreases lo,
{
    if lo == 0 {
        if s.len() > 0 {
            assert(!is_space(s[0]));
        }
        assert(trim_left(s) =~= s.subrange(0, s.len() as int));
    } else {
        assert(is_space(s[0]));
        assert(forall|j: int| 0 <= j < lo - 1 ==> s.drop_first()[j] == s[j + 1]);
        if lo - 1 < s.drop_first().len() {
            assert(s.drop_first()[lo - 1] == s[lo]);
        }
        lemma_trim_left_at(s.drop_first(), lo - 1);
        assert(s.drop_first().subrange(lo - 1, s.drop_first().len() as int) =~= s.subrange(
            lo,
            s.len() as int,
        ));
    }
}

proof fn lemma_trim_right_at(s: Seq<char>, hi: int)
    requires
        0 <= hi <= s.len(),
        forall|j: int| hi <= j < s.len() ==> is_space(s[j]),
        hi == 0 || !is_space(s[hi - 1]),
    ensures
        trim_right(s) == s.subrange(0, hi),
    decreases s.len() - hi,
{
    if hi == s.len() {
        if s.len() > 0 {
            assert(!is_space(s.last()));
        }
        assert(trim_right(s) =~= s.subrange(0, hi));
    } else {
        assert(is_space(s.last()));
        assert(forall|j: int| 0 <= j < s.drop_last().len() ==> s.drop_last()[j] == s[j]);
        lemma_trim_right_at(s.drop_last(), hi);
        assert(s.drop_last().subrange(0, hi) =~= s.subrange(0, hi));
    }
}

/// `str::trim`, for the whitespace the tools emit.
pub fn trim_str(s: &str) -> (r: String)
    ensures
        r@ == trim_spec(s@),
{
    let len = s.unicode_len();
    let mut lo: usize = 0;
    while lo < len
        invariant
            len == s@.len(),
            lo <= len,
            forall|j: int| 0 <= j < lo ==> is_space(s@[j]),
        ensures
            lo <= len,
            len == s@.len(),
            forall|j: int| 0 <= j < lo ==> is_space(s@[j]),
            lo == len || !is_space(s@[lo as int]),
        decreases len - lo,
    {
        let c = s.get_char(lo);
        if !(c == ' ' || c == '\t' || c == '\n' || c == '\r') {
            break ;
        }
        lo += 1;
    }
    proof {
        lemma_trim_left_at(s@, lo as int);
    }
    let mut hi: usize = len;
    while hi > lo
        invariant
            len == s@.len(),
            lo <= hi <= len,
            lo == len || !is_space(s@[lo as int]),
            forall|j: int| 0 <= j < lo ==> is_space(s@[j]),
            forall|j: int| hi <= j < len ==> is_space(s@[j]),
        ensures
            len == s@.len(),
            lo <= hi <= len,
            forall|j: int| hi <= j < len ==> is_space(s@[j]),
            hi == lo || !is_space(s@[hi - 1]),
        decreases hi,
    {
        let c = s.get_char(hi - 1);
        if !(c == ' ' || c == '\t' || c == '\n' || c == '\r') {
            break ;
        }
        hi -= 1;
    }
    let r = s.substring_char(lo, hi).to_owned();
    proof {
        let left = s@.subrange(lo as int, len as int);
        if hi == lo {
            assert(forall|j: int| lo <= j < len ==> is_space(s@[j]));
            assert(forall|j: int| 0 <= j < left.len() ==> left[j] == s@[lo + j]);
            lemma_trim_right_at(left, 0);
        } else {
            assert(!is_space(s@[hi - 1]));
            assert(forall|j: int| 0 <= j < left.len() ==> left[j] == s@[lo + j]);
            lemma_trim_right_at(left, hi - lo);
        }
        assert(left.subrange(0, hi - lo) =~= s@.subrange(lo as int, hi as int));
    }
    r
}

/// `s` with every leading repetition of `p` removed, as
/// `str::trim_start_matches` strips them.
pub open spec fn strip_prefix_all(s: Seq<char>, p: Seq<char>) -> Seq<char>
    decreases s.len(),
{
    if p.len() > 0 && is_prefix(s, p) {
        strip_prefix_all(s.skip(p.len() as int), p)
    } else {
        s
    }
}

/// `str::trim_start_matches` for a literal pattern.
pub fn trim_start_matches_str(s: &str, p: &str) -> (r: String)
    ensures
        r@ == strip_prefix_all(s@, p@),
{
    let slen = s.unicode_len();
    let plen = p.unicode_len();
    let mut lo: usize = 0;
    if plen == 0 || plen > slen {
        proof {
            if plen > slen {
                assert(!is_prefix(s@, p@));
            }
        }
        return s.to_owned();
    }
    proof {
        assert(s@.subrange(0, slen as int) =~= s@);
    }
    while lo <= slen - plen && str_eq(s.substring_char(lo, lo + plen), p)
        invariant
            slen == s@.len(),
            plen == p@.len(),
            0 < plen <= slen,
            lo <= slen,
            strip_prefix_all(s@, p@) == strip_prefix_all(s@.subrange(lo as int, slen as int), p@),
        decreases slen - lo,
    {
        let ghost suffix = s@.subrange(lo as int, slen as int);
        proof {
            assert(suffix.subrange(0, plen as int) =~= s@.subrange(lo as int, lo + plen));
            assert(is_prefix(suffix, p@));
            assert(suffix.skip(plen as int) =~= s@.subrange(lo + plen, slen as int));
        }
        lo += plen;
    }
    let r = s.substring_char(lo, slen).to_owned();
    proof {
        let suffix = s@.subrange(lo as int, slen as int);
        if lo + plen <= slen {
            assert(suffix.subrange(0, plen as int) =~= s@.subrange(lo as int, lo + plen));
            assert(!is_prefix(suffix, p@));
        } else {
            assert(suffix.len() < p@.len());
        }
    }
    r
}

// ---------- building and mapping strings ----------

/// Relies on `String::push`: appends exactly the one character.
#[verifier::external_body]
pub fn push_char(s: &mut String, c: char)
    ensures
        final(s)@ == old(s)@.push(c),
{
    s.push(c);
}

/// `s` with every occurrence of `from` replaced by `to`.
pub open spec fn replace_char_spec(s: Seq<char>, from: char, to: char) -> Seq<char> {
    Seq::new(
        s.len(),
        |i: int|
            if s[i] == from {
                to
            } else {
                s[i]
            },
    )
}

pub fn replace_char(s: &str, from: char, to: char) -> (r: String)
    ensures
        r@ == replace_char_spec(s@, from, to),
{
    let len = s.unicode_len();
    let mut r = String::new();
    let mut i: usize = 0;
    while i < len
        invariant
            len == s@.len(),
            i <= len,
            r@ == replace_char_spec(s@, from, to).take(i as int),
        decreases len - i,
    {
        let c = s.get_char(i);
        if c == from {
            push_char(&mut r, to);
        } else {
            push_char(&mut r, c);
        }
        proof {
            assert(r@ =~= replace_char_spec(s@, from, to).take(i + 1));
        }
        i += 1;
    }
    proof {
        assert(replace_char_spec(s@, from, to).take(len as int) =~= replace_char_spec(
            s@,
            from,
            to,
        ));
    }
    r
}

/// `s` with every occurrence of `c` removed, most significant use
/// being the quotes around values the settings tool prints.
pub open spec fn remove_char_spec(s: Seq<char>, c: char) -> Seq<char>
    decreases s.len(),
{
    if s.len() == 0 {
        Seq::empty()
    } else if s.last() == c {
        remove_char_spec(s.drop_last(), c)
    } else {
        remove_char_spec(s.drop_last(), c).push(s.last())
    }
}

pub fn remove_char(s: &str, c: char) -> (r: String)
    ensures
        r@ == remove_char_spec(s@, c),
{
    let len = s.unicode_len();
    let mut r = String::new();
    let mut i: usize = 0;
    proof {
        assert(s@.take(0) =~= Seq::<char>::empty());
    }
    while i < len
        invariant
            len == s@.len(),
            i <= len,
            r@ == remove_char_spec(s@.take(i as int), c),
        decreases len - i,
    {
        let ch = s.get_char(i);
        proof {
            assert(s@.take(i + 1).drop_last() =~= s@.take(i as int));
            assert(s@.take(i + 1).last() == s@[i as int]);
        }
        if ch != c {
            push_char(&mut r, ch);
        }
        i += 1;
    }
    proof {
        assert(s@.take(len as int) =~= s@);
    }
    r
}

// ---------- whitespace tokens ----------

/// The whitespace-separated tokens of `s`, as `str::split_whitespace`
/// yields them: runs of whitespace collapse and never produce empty
/// tokens.
pub open spec fn tokens(s: Seq<char>) -> Seq<Seq<char>>
    decreases s.len(),
{
    if s.len() == 0 {
        Seq::empty()
    } else if is_space(s[0]) {
        tokens(s.drop_first())
    } else if s.len() > 1 && !is_space(s[1]) {
        let rest = tokens(s.drop_first());
        seq![seq![s[0]] + rest[0]] + rest.drop_first()
    } else {
        seq![seq![s[0]]] + tokens(s.drop_first())
    }
}

proof fn lemma_tokens_head(x: Seq<char>, y: Seq<char>)
    requires
        x.len() > 0,
        forall|j: int| 0 <= j < x.len() ==> !is_space(x[j]),
        y.len() == 0 || is_space(y[0]),
    ensures
        tokens(x + y) == seq![x] + tokens(y),
    decreases x.len(),
{
    let z = x + y;
    assert(z[0] == x[0]);
    assert(!is_space(z[0]));
    if x.len() == 1 {
        assert(z.drop_first() =~= y);
        if y.len() == 0 {
            assert(tokens(z) =~= seq![seq![z[0]]] + tokens(y));
        } else {
            assert(z.len() > 1 && is_space(z[1]));
            assert(tokens(z) =~= seq![seq![z[0]]] + tokens(y));
        }
        assert(seq![z[0]] =~= x);
        assert(tokens(z) =~= seq![x] + tokens(y));
    } else {
        assert(z.len() > 1);
        assert(z[1] == x[1]);
        assert(!is_space(z[1]));
        assert(z.drop_first() =~= x.drop_first() + y);
        assert(forall|j: int| 0 <= j < x.drop_first().len() ==> x.drop_first()[j] == x[j + 1]);
        lemma_tokens_head(x.drop_first(), y);
        let rest = tokens(z.drop_first());
        assert(rest == seq![x.drop_first()] + tokens(y));
        assert(rest[0] == x.drop_first());
        assert(rest.drop_first() =~= tokens(y));
        assert(seq![z[0]] + rest[0] =~= x);
        assert(tokens(z) =~= seq![x] + tokens(y));
    }
}

/// `str::split_whitespace`, yielding owned tokens.
pub fn split_whitespace_str(s: &str) -> (r: Vec<String>)
    ensures
        r.deep_view() == tokens(s@),
{
    let len = s.unicode_len();
    let mut r: Vec<String> = Vec::new();
    let mut i: usize = 0;
    proof {
        assert(s@.subrange(0, len as int) =~= s@);
        assert(r.deep_view() + tokens(s@) =~= tokens(s@));
    }
    while i < len
        invariant
            len == s@.len(),
            i <= len,
            tokens(s@) == r.deep_view() + tokens(s@.subrange(i as int, len as int)),
        decreases len - i,
    {
        let c = s.get_char(i);
        if c == ' ' || c == '\t' || c == '\n' || c == '\r' {
            proof {
                let suffix = s@.subrange(i as int, len as int);
                assert(is_space(suffix[0]));
                assert(suffix.drop_first() =~= s@.subrange(i + 1, len as int));
            }
            i += 1;
        } else {
            let start = i;
            let mut j: usize = i + 1;
            while j < len
                invariant
                    len == s@.len(),
                    start < j <= len,
                    forall|k: int| start <= k < j ==> !is_space(s@[k]),
                ensures
                    len == s@.len(),
                    start < j <= len,
                    forall|k: int| start <= k < j ==> !is_space(s@[k]),
                    j == len || is_space(s@[j as int]),
                decreases len - j,
            {
                let c2 = s.get_char(j);
                if c2 == ' ' || c2 == '\t' || c2 == '\n' || c2 == '\r' {
                    break ;
                }
                j += 1;
            }
            let ghost r0 = r.deep_view();
            let ghost tok = s@.subrange(start as int, j as int);
            r.push(s.substring_char(start, j).to_owned());
            proof {
                assert(r.deep_view() =~= r0.push(tok));
                let suffix = s@.subrange(start as int, len as int);
                let after = s@.subrange(j as int, len as int);
                assert(suffix =~= tok + after);
                assert(forall|k: int| 0 <= k < tok.len() ==> tok[k] == s@[start + k]);
                assert(!is_space(tok[0]));
                if after.len() > 0 {
                    assert(after[0] == s@[j as int]);
                    assert(is_space(after[0]));
                }
                lemma_tokens_head(tok, after);
                assert(r0.push(tok) + tokens(after) =~= r0 + (seq![tok] + tokens(after)));
            }
            i = j;
        }
    }
    proof {
        assert(s@.subrange(len as int, len as int) =~= Seq::<char>::empty());
        assert(r.deep_view() + Seq::<Seq<char>>::empty() =~= r.deep_view());
    }
    r
}

// ---------- decimal numbers ----------

/// `c` is a decimal digit.
pub open spec fn is_digit(c: char) -> bool {
    48 <= c as u32 <= 57
}

/// The value of a decimal digit.
pub open spec fn digit_val(c: char) -> nat {
    (c as u32 - 48) as nat
}

/// A non-empty run of decimal digits.
pub open spec fn all_digits(s: Seq<char>) -> bool {
    s.len() > 0 && forall|i: int| 0 <= i < s.len() ==> is_digit(s[i])
}

/// The number a run of digits denotes, most significant first.
pub open spec fn digits_val(s: Seq<char>) -> nat
    decreases s.len(),
{
    if s.len() == 0 {
        0
    } else {
        digits_val(s.drop_last()) * 10 + digit_val(s.last())
    }
}

/// The digits of `s` after an optional leading plus sign, as the
/// standard library's unsigned parsers accept it.
pub open spec fn unsigned_body(s: Seq<char>) -> Seq<char> {
    if s.len() > 0 && s[0] == '+' {
        s.drop_first()
    } else {
        s
    }
}

/// A longer digit run never denotes a smaller number.
pub proof fn lemma_digits_take_le(d: Seq<char>, i: int, j: int)
    requires
        0 <= i <= j <= d.len(),
    ensures
        digits_val(d.take(i)) <= digits_val(d.take(j)),
    decreases j - i,
{
    if i < j {
        lemma_digits_take_le(d, i, j - 1);
        assert(d.take(j).drop_last() =~= d.take(j - 1));
        assert(digits_val(d.take(j)) == digits_val(d.take(j - 1)) * 10 + digit_val(
            d.take(j).last(),
        ));
    }
}

/// Parse the digit run `s[from..]`; `None` if it is empty, holds a
/// non-digit, or denotes more than `cap`.
fn parse_digits_capped(s: &str, from: usize, cap: u32) -> (r: Option<u32>)
    requires
        from <= s@.len(),
    ensures
        match r {
            Some(v) => {
                let d = s@.subrange(from as int, s@.len() as int);
                &&& all_digits(d)
                &&& digits_val(d) == v
                &&& v <= cap
            },
            None => {
                let d = s@.subrange(from as int, s@.len() as int);
                !(all_digits(d) && digits_val(d) <= cap)
            },
        },
{
    let len = s.unicode_len();
    let ghost d = s@.subrange(from as int, len as int);
    if from >= len {
        return None;
    }
    let mut acc: u64 = 0;
    let mut k: usize = from;
    proof {
        assert(d.take(0) =~= Seq::<char>::empty());
    }
    while k < len
        invariant
            from <= k <= len,
            len == s@.len(),
            d == s@.subrange(from as int, len as int),
            forall|j: int| 0 <= j < k - from ==> is_digit(d[j]),
            acc as nat == digits_val(d.take(k - from)),
            acc <= cap,
        decreases len - k,
    {
        let c = s.get_char(k);
        let v: u32 = c as u32;
        proof {
            assert(d[k - from] == s@[k as int]);
        }
        if v < 48 || v > 57 {
            return None;
        }
        let ghost prev = d.take(k - from);
        acc = acc * 10 + (v - 48) as u64;
        proof {
            assert(d.take(k + 1 - from).drop_last() =~= prev);
            assert(d.take(k + 1 - from).last() == d[k - from]);
            assert(acc as nat == digits_val(d.take(k + 1 - from)));
        }
        if acc > cap as u64 {
            proof {
                lemma_digits_take_le(d, k + 1 - from, d.len() as int);
                assert(d.take(d.len() as int) =~= d);
                assert(digits_val(d) > cap);
            }
            return None;
        }
        k += 1;
    }
    proof {
        assert(d.take(k - from) =~= d);
    }
    Some(acc as u32)
}

/// What `str::parse::<u8>().unwrap_or(0)` yields: the denoted value if
/// the text is a digit run (optionally plus-signed) that fits, else zero.
pub open spec fn parsed_u8_or_zero(s: Seq<char>) -> u8 {
    let d = unsigned_body(s);
    if all_digits(d) && digits_val(d) <= 255 {
        digits_val(d) as u8
    } else {
        0
    }
}

pub fn parse_u8_or_zero(s: &str) -> (r: u8)
    ensures
        r == parsed_u8_or_zero(s@),
{
    let len = s.unicode_len();
    let from: usize = if len > 0 && s.get_char(0) == '+' {
        1
    } else {
        0
    };
    proof {
        assert(s@.subrange(from as int, len as int) =~= unsigned_body(s@));
    }
    match parse_digits_capped(s, from, 255) {
        Some(v) => v as u8,
        None => 0,
    }
}

/// What `str::parse::<i32>().unwrap_or(default)` yields.
pub open spec fn parsed_i32_or(s: Seq<char>, default: i32) -> i32 {
    if s.len() > 0 && s[0] == '-' {
        let d = s.drop_first();
        if all_digits(d) && digits_val(d) <= 2147483648 {
            (0 - digits_val(d) as int) as i32
        } else {
            default
        }
    } else {
        let d = unsigned_body(s);
        if all_digits(d) && digits_val(d) <= 2147483647 {
            digits_val(d) as i32
        } else {
            default
        }
    }
}

pub fn parse_i32_or(s: &str, default: i32) -> (r: i32)
    ensures
        r == parsed_i32_or(s@, default),
{
    let len = s.unicode_len();
    if len > 0 && s.get_char(0) == '-' {
        proof {
            assert(s@.subrange(1, len as int) =~= s@.drop_first());
        }
        match parse_digits_capped(s, 1, 2147483648u32) {
            Some(v) => {
                if v == 2147483648u32 {
                    i32::MIN
                } else {
                    -(v as i32)
                }
            },
            None => default,
        }
    } else {
        let from: usize = if len > 0 && s.get_char(0) == '+' {
            1
        } else {
            0
        };
        proof {
            assert(s@.subrange(from as int, len as int) =~= unsigned_body(s@));
        }
        match parse_digits_capped(s, from, 2147483647u32) {
            Some(v) => v as i32,
            None => default,
        }
    }
}

/// The character of a decimal digit.
pub open spec fn digit_char(d: nat) -> char {
    if d == 0 {
        '0'
    } else if d == 1 {
        '1'
    } else if d == 2 {
        '2'
    } else if d == 3 {
        '3'
    } else if d == 4 {
        '4'
    } else if d == 5 {
        '5'
    } else if d == 6 {
        '6'
    } else if d == 7 {
        '7'
    } else if d == 8 {
        '8'
    } else {
        '9'
    }
}

/// The decimal digits of `n`, most significant first, no leading zeros.
pub open spec fn dec_digits(n: nat) -> Seq<char>
    decreases n,
{
    if n < 10 {
        seq![digit_char(n)]
    } else {
        dec_digits(n / 10).push(digit_char(n % 10))
    }
}

/// The decimal rendering of an integer, with a minus sign if negative.
pub open spec fn dec_int(n: int) -> Seq<char> {
    if n >= 0 {
        dec_digits(n as nat)
    } else {
        seq!['-'] + dec_digits((-n) as nat)
    }
}

fn digit_str(d: u8) -> (r: &'static str)
    requires
        d < 10,
    ensures
        r@ == seq![digit_char(d as nat)],
{
    if d == 0 {
        proof {
            reveal_strlit("0");
            assert("0"@ =~= seq!['0']);
        }
        "0"
    } else if d == 1 {
        proof {
            reveal_strlit("1");
            assert("1"@ =~= seq!['1']);
        }
        "1"
    } else if d == 2 {
        proof {
            reveal_strlit("2");
            assert("2"@ =~= seq!['2']);
        }
        "2"
    } else if d == 3 {
        proof {
            reveal_strlit("3");
            assert("3"@ =~= seq!['3']);
        }
        "3"
    } else if d == 4 {
        proof {
            reveal_strlit("4");
            assert("4"@ =~= seq!['4']);
        }
        "4"
    } else if d == 5 {
        proof {
            reveal_strlit("5");
            assert("5"@ =~= seq!['5']);
        }
        "5"
    } else if d == 6 {
        proof {
            reveal_strlit("6");
            assert("6"@ =~= seq!['6']);
        }
        "6"
    } else if d == 7 {
        proof {
            reveal_strlit("7");
            assert("7"@ =~= seq!['7']);
        }
        "7"
    } else if d == 8 {
        proof {
            reveal_strlit("8");
            assert("8"@ =~= seq!['8']);
        }
        "8"
    } else {
        proof {
            reveal_strlit("9");
            assert("9"@ =~= seq!['9']);
        }
        "9"
    }
}

pub fn u32_to_string(n: u32) -> (r: String)
    ensures
        r@ == dec_digits(n as nat),
    decreases n,
{
    if n < 10 {
        digit_str(n as u8).to_owned()
    } else {
        let mut s = u32_to_string(n / 10);
        s.append(digit_str((n % 10) as u8));
        proof {
            assert(s@ =~= dec_digits((n / 10) as nat).push(digit_char((n % 10) as nat)));
        }
        s
    }
}

pub fn i32_to_string(n: i32) -> (r: String)
    ensures
        r@ == dec_int(n as int),
{
    if n >= 0 {
        u32_to_string(n as u32)
    } else {
        proof {
            assert(1 <= -(n as int) <= 2147483648);
        }
        let m: u32 = (-(n as i64)) as u32;
        let mut s = String::new();
        s.append("-");
        let digits = u32_to_string(m);
        s.append(digits.as_str());
        proof {
            reveal_strlit("-");
            assert("-"@ =~= seq!['-']);
            assert(s@ =~= dec_int(n as int));
        }
        s
    }
}

} // verus!

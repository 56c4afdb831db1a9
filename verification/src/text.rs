//! Character-level helpers shared by the header, path and query parsers.
use vstd::prelude::*;

verus! {

broadcast use crate::views::lemma_char_vec_deep_view;

/// Whitespace that is trimmed from header and parameter tokens.
pub open spec fn is_space(c: char) -> bool {
    c == ' ' || c == '\t' || c == '\n' || c == '\r' || c == '\x0B' || c == '\x0C'
}

/// `s` with its leading whitespace removed.
pub open spec fn trim_start(s: Seq<char>) -> Seq<char>
    decreases s.len(),
{
    if s.len() > 0 && is_space(s[0]) {
        trim_start(s.drop_first())
    } else {
        s
    }
}

/// `s` with its trailing whitespace removed.
pub open spec fn trim_end(s: Seq<char>) -> Seq<char>
    decreases s.len(),
{
    if s.len() > 0 && is_space(s.last()) {
        trim_end(s.drop_last())
    } else {
        s
    }
}

/// `s` with whitespace removed from both ends.
pub open spec fn trim(s: Seq<char>) -> Seq<char> {
    trim_end(trim_start(s))
}

/// The pieces of `s` between occurrences of `sep` (always at least one piece).
pub open spec fn split_on(s: Seq<char>, sep: char) -> Seq<Seq<char>>
    decreases s.len(),
{
    if s.len() == 0 {
        seq![Seq::<char>::empty()]
    } else {
        let rest = split_on(s.drop_last(), sep);
        if s.last() == sep {
            rest.push(Seq::<char>::empty())
        } else {
            rest.update(rest.len() - 1, rest.last().push(s.last()))
        }
    }
}

/// The pieces joined together with `sep` between consecutive pieces.
pub open spec fn join_with(parts: Seq<Seq<char>>, sep: Seq<char>) -> Seq<char>
    decreases parts.len(),
{
    if parts.len() == 0 {
        Seq::<char>::empty()
    } else if parts.len() == 1 {
        parts[0]
    } else {
        join_with(parts.drop_last(), sep) + sep + parts.last()
    }
}

/// The pieces that are not empty, in order.
pub open spec fn non_empty(parts: Seq<Seq<char>>) -> Seq<Seq<char>>
    decreases parts.len(),
{
    if parts.len() == 0 {
        Seq::<Seq<char>>::empty()
    } else if parts.last().len() == 0 {
        non_empty(parts.drop_last())
    } else {
        non_empty(parts.drop_last()).push(parts.last())
    }
}

/// ASCII upper-casing of one character.
pub open spec fn upper(c: char) -> char {
    if 'a' <= c && c <= 'z' {
        ((c as int) - 32) as char
    } else {
        c
    }
}

/// Equality of two texts when ASCII letter case is ignored.
pub open spec fn eq_ignore_case(a: Seq<char>, b: Seq<char>) -> bool {
    a.len() == b.len() && forall|i: int| 0 <= i < a.len() ==> upper(#[trigger] a[i]) == upper(b[i])
}

/// `p` is a prefix of `s` when ASCII letter case is ignored.
pub open spec fn prefix_ignore_case(p: Seq<char>, s: Seq<char>) -> bool {
    p.len() <= s.len() && eq_ignore_case(p, s.take(p.len() as int))
}

/// The same character, or the same ASCII letter in the other case.
pub open spec fn same_up_to_case(a: char, b: char) -> bool {
    ||| a == b
    ||| 'a' <= a && a <= 'z' && b as int == a as int - 32
    ||| 'a' <= b && b <= 'z' && a as int == b as int - 32
}

/// Law: two texts are equal ignoring ASCII case exactly when they have the same length and
/// each character of one is the same character, or the same ASCII letter in the other case,
/// as the character in the same place of the other.
pub proof fn lemma_eq_ignore_case_letters(a: Seq<char>, b: Seq<char>)
    ensures
        eq_ignore_case(a, b) <==> (a.len() == b.len() && forall|i: int|
            0 <= i < a.len() ==> same_up_to_case(#[trigger] a[i], b[i])),
{
    if a.len() == b.len() {
        assert forall|i: int| 0 <= i < a.len() implies (upper(#[trigger] a[i]) == upper(b[i]) <==> same_up_to_case(
            a[i],
            b[i],
        )) by {
            let x = a[i];
            let y = b[i];
            if 'a' <= x && x <= 'z' {
                assert(upper(x) as int == x as int - 32);
            }
            if 'a' <= y && y <= 'z' {
                assert(upper(y) as int == y as int - 32);
            }
        }
    }
}

/// Splitting a text without the separator gives the text itself.
pub proof fn lemma_split_without_sep(s: Seq<char>, sep: char)
    requires
        !s.contains(sep),
    ensures
        split_on(s, sep) == seq![s],
    decreases s.len(),
{
    if s.len() > 0 {
        assert(!s.drop_last().contains(sep)) by {
            if s.drop_last().contains(sep) {
                let i = choose|i: int| 0 <= i < s.drop_last().len() && s.drop_last()[i] == sep;
                assert(s[i] == sep);
            }
        }
        lemma_split_without_sep(s.drop_last(), sep);
        assert(s[s.len() - 1] != sep);
        assert(s.drop_last().push(s.last()) =~= s);
        assert(split_on(s, sep) =~= seq![s]);
    } else {
        assert(s =~= Seq::<char>::empty());
    }
}

/// Splitting `a`, a separator and `b` gives the pieces of `a` followed by those of `b`.
pub proof fn lemma_split_concat(a: Seq<char>, b: Seq<char>, sep: char)
    ensures
        split_on(a + seq![sep] + b, sep) == split_on(a, sep) + split_on(b, sep),
    decreases b.len(),
{
    let s = a + seq![sep] + b;
    if b.len() == 0 {
        assert(s.drop_last() =~= a);
        assert(split_on(b, sep) =~= seq![Seq::<char>::empty()]);
        assert(split_on(s, sep) =~= split_on(a, sep) + split_on(b, sep));
    } else {
        lemma_split_concat(a, b.drop_last(), sep);
        assert(s.drop_last() =~= a + seq![sep] + b.drop_last());
        assert(s.last() == b.last());
        let x = split_on(a, sep);
        let y = split_on(b.drop_last(), sep);
        assert(y.len() >= 1) by {
            lemma_split_len(b.drop_last(), sep);
        }
        if b.last() == sep {
            assert(split_on(s, sep) =~= (x + y).push(Seq::<char>::empty()));
            assert(split_on(b, sep) =~= y.push(Seq::<char>::empty()));
            assert((x + y).push(Seq::<char>::empty()) =~= x + y.push(Seq::<char>::empty()));
        } else {
            let xy = x + y;
            assert(xy.last() == y.last());
            assert(xy.update(xy.len() - 1, xy.last().push(b.last())) =~= x + y.update(y.len() - 1, y.last().push(b.last())));
        }
    }
}

/// Splitting gives at least one piece.
pub proof fn lemma_split_len(s: Seq<char>, sep: char)
    ensures
        split_on(s, sep).len() >= 1,
    decreases s.len(),
{
    if s.len() > 0 {
        lemma_split_len(s.drop_last(), sep);
    }
}

/// Splitting pieces joined with a separator that none of them holds gives the pieces back.
pub proof fn lemma_split_join(parts: Seq<Seq<char>>, sep: char)
    requires
        parts.len() >= 1,
        forall|i: int| 0 <= i < parts.len() ==> !(#[trigger] parts[i]).contains(sep),
    ensures
        split_on(join_with(parts, seq![sep]), sep) == parts,
    decreases parts.len(),
{
    if parts.len() == 1 {
        lemma_split_without_sep(parts[0], sep);
        assert(seq![parts[0]] =~= parts);
    } else {
        let init = parts.drop_last();
        assert forall|i: int| 0 <= i < init.len() implies !(#[trigger] init[i]).contains(sep) by {
            assert(init[i] == parts[i]);
        }
        lemma_split_join(init, sep);
        assert(!parts[parts.len() - 1].contains(sep));
        lemma_split_without_sep(parts.last(), sep);
        lemma_split_concat(join_with(init, seq![sep]), parts.last(), sep);
        assert(init + seq![parts.last()] =~= parts);
    }
}

/// Keeping the non-empty pieces of two lists is keeping those of each.
pub proof fn lemma_non_empty_concat(a: Seq<Seq<char>>, b: Seq<Seq<char>>)
    ensures
        non_empty(a + b) == non_empty(a) + non_empty(b),
    decreases b.len(),
{
    if b.len() == 0 {
        assert(a + b =~= a);
        assert(non_empty(a) + non_empty(b) =~= non_empty(a));
    } else {
        lemma_non_empty_concat(a, b.drop_last());
        assert((a + b).drop_last() =~= a + b.drop_last());
        assert((a + b).last() == b.last());
        if b.last().len() > 0 {
            assert(non_empty(a) + non_empty(b.drop_last()).push(b.last()) =~= (non_empty(a) + non_empty(
                b.drop_last(),
            )).push(b.last()));
        }
    }
}

/// The non-empty pieces hold no empty piece, and only pieces of the list.
pub proof fn lemma_non_empty_parts(parts: Seq<Seq<char>>)
    ensures
        forall|i: int| 0 <= i < non_empty(parts).len() ==> (#[trigger] non_empty(parts)[i]).len() > 0,
        forall|i: int| 0 <= i < non_empty(parts).len() ==> parts.contains(#[trigger] non_empty(parts)[i]),
    decreases parts.len(),
{
    if parts.len() > 0 {
        lemma_non_empty_parts(parts.drop_last());
        let r = non_empty(parts.drop_last());
        assert forall|i: int| 0 <= i < non_empty(parts).len() implies parts.contains(#[trigger] non_empty(parts)[i]) by {
            if i < r.len() {
                assert(r[i] == non_empty(parts)[i]);
                let k = choose|k: int| 0 <= k < parts.drop_last().len() && parts.drop_last()[k] == r[i];
                assert(parts[k] == r[i]);
            } else {
                assert(parts[parts.len() - 1] == non_empty(parts)[i]);
            }
        }
    }
}

/// Keeping the non-empty pieces of a list without empty pieces changes nothing.
pub proof fn lemma_non_empty_same(parts: Seq<Seq<char>>)
    requires
        forall|i: int| 0 <= i < parts.len() ==> (#[trigger] parts[i]).len() > 0,
    ensures
        non_empty(parts) == parts,
    decreases parts.len(),
{
    if parts.len() > 0 {
        lemma_non_empty_same(parts.drop_last());
        assert(parts.drop_last().push(parts.last()) =~= parts);
    }
}

/// The first piece begins the joined text.
pub proof fn lemma_join_prefix(parts: Seq<Seq<char>>, sep: Seq<char>)
    requires
        parts.len() >= 1,
    ensures
        parts[0].len() <= join_with(parts, sep).len(),
        join_with(parts, sep).take(parts[0].len() as int) == parts[0],
    decreases parts.len(),
{
    if parts.len() > 1 {
        lemma_join_prefix(parts.drop_last(), sep);
        let j = join_with(parts.drop_last(), sep);
        assert((j + sep + parts.last()).take(parts[0].len() as int) =~= j.take(parts[0].len() as int));
    }
}

/// No piece of a split holds the separator.
pub proof fn lemma_split_pieces(s: Seq<char>, sep: char)
    ensures
        forall|i: int| 0 <= i < split_on(s, sep).len() ==> !(#[trigger] split_on(s, sep)[i]).contains(sep),
    decreases s.len(),
{
    if s.len() > 0 {
        lemma_split_pieces(s.drop_last(), sep);
        let rest = split_on(s.drop_last(), sep);
        lemma_split_len(s.drop_last(), sep);
        if s.last() != sep {
            let last = rest.last().push(s.last());
            assert(!last.contains(sep)) by {
                if last.contains(sep) {
                    let k = choose|k: int| 0 <= k < last.len() && last[k] == sep;
                    if k < rest.last().len() {
                        assert(rest.last()[k] == sep);
                        assert(rest[rest.len() - 1].contains(sep));
                    }
                }
            }
            assert forall|i: int| 0 <= i < split_on(s, sep).len() implies !(#[trigger] split_on(s, sep)[i]).contains(sep) by {
                if i < rest.len() - 1 {
                    assert(split_on(s, sep)[i] == rest[i]);
                }
            }
        } else {
            assert forall|i: int| 0 <= i < split_on(s, sep).len() implies !(#[trigger] split_on(s, sep)[i]).contains(sep) by {
                if i < rest.len() {
                    assert(split_on(s, sep)[i] == rest[i]);
                } else {
                    assert(split_on(s, sep)[i] =~= Seq::<char>::empty());
                }
            }
        }
    }
}

/// `s` has no whitespace at either end.
pub open spec fn is_trimmed(s: Seq<char>) -> bool {
    s.len() == 0 || (!is_space(s[0]) && !is_space(s.last()))
}

/// Trimming a text without whitespace at its ends leaves it as it is.
pub proof fn lemma_trimmed(s: Seq<char>)
    requires
        is_trimmed(s),
    ensures
        trim(s) == s,
{
    assert(trim_start(s) == s);
    assert(trim_end(s) == s);
}

/// Trimming ignores a leading space.
pub proof fn lemma_trim_space_prefix(x: Seq<char>)
    ensures
        trim(seq![' '] + x) == trim(x),
{
    let s = seq![' '] + x;
    assert(s.drop_first() =~= x);
    assert(is_space(s[0]));
    assert(trim_start(s) == trim_start(x));
}

/// Joining pieces after appending a character to the last one appends it to the joined text.
proof fn lemma_join_push_last(parts: Seq<Seq<char>>, sep: Seq<char>, c: char)
    requires
        parts.len() >= 1,
    ensures
        join_with(parts.update(parts.len() - 1, parts.last().push(c)), sep) == join_with(parts, sep).push(c),
{
    let u = parts.update(parts.len() - 1, parts.last().push(c));
    if parts.len() > 1 {
        assert(u.drop_last() =~= parts.drop_last());
        assert(u.last() == parts.last().push(c));
        assert(join_with(parts.drop_last(), sep) + sep + parts.last().push(c) =~= (join_with(parts.drop_last(), sep)
            + sep + parts.last()).push(c));
    }
}

/// Joining the pieces of a split with the separator gives the text back.
pub proof fn lemma_join_split(s: Seq<char>, sep: char)
    ensures
        join_with(split_on(s, sep), seq![sep]) == s,
    decreases s.len(),
{
    if s.len() == 0 {
        assert(join_with(split_on(s, sep), seq![sep]) =~= s);
    } else {
        lemma_join_split(s.drop_last(), sep);
        lemma_split_len(s.drop_last(), sep);
        let rest = split_on(s.drop_last(), sep);
        if s.last() == sep {
            let e = Seq::<char>::empty();
            assert(rest.push(e).drop_last() =~= rest);
            assert(join_with(rest.push(e), seq![sep]) =~= s.drop_last() + seq![sep] + e);
            assert(s.drop_last() + seq![sep] + e =~= s);
        } else {
            lemma_join_push_last(rest, seq![sep], s.last());
            assert(s.drop_last().push(s.last()) =~= s);
        }
    }
}

pub fn is_space_char(c: char) -> (r: bool)
    ensures
        r == is_space(c),
{
    c == ' ' || c == '\t' || c == '\n' || c == '\r' || c == '\x0B' || c == '\x0C'
}

pub fn upper_char(c: char) -> (r: char)
    ensures
        r == upper(c),
{
    if 'a' <= c && c <= 'z' {
        let n: u32 = c as u32;
        let m: u32 = n - 32;
        proof {
            assert(0x41 <= m <= 0x5A);
        }
        char_from_ascii(m)
    } else {
        c
    }
}

/// The character whose code point is the ASCII value `n`.
pub(crate) fn char_from_ascii(n: u32) -> (c: char)
    requires
        n < 128,
    ensures
        c as int == n as int,
{
    let b: u8 = n as u8;
    b as char
}

/// The characters of `s`, in order.
pub fn chars_of(s: &str) -> (v: Vec<char>)
    ensures
        v@ == s@,
{
    let mut v: Vec<char> = Vec::new();
    for c in it: s.chars()
        invariant
            v@ == it.seq().take(it.index() as int),
    {
        v.push(c);
    }
    v
}

/// A string made of the given characters: `FromIterator::from_iter` of std.
#[verifier::external_body]
pub(crate) fn string_of(v: &[char]) -> (s: String)
    ensures
        s@ == v@,
{
    String::from_iter(v.iter())
}

/// A string holding the given literal text.
pub fn string_from(s: &str) -> (r: String)
    ensures
        r@ == s@,
{
    let v = chars_of(s);
    string_of(v.as_slice())
}

/// The characters `v[from..to]`.
pub fn sub_chars(v: &[char], from: usize, to: usize) -> (r: Vec<char>)
    requires
        from <= to <= v@.len(),
    ensures
        r@ == v@.subrange(from as int, to as int),
{
    let mut r: Vec<char> = Vec::new();
    let mut i = from;
    while i < to
        invariant
            from <= i <= to <= v@.len(),
            r@ == v@.subrange(from as int, i as int),
        decreases to - i,
    {
        r.push(v[i]);
        i = i + 1;
        assert(r@ =~= v@.subrange(from as int, i as int));
    }
    r
}

/// `a` followed by `b`.
pub fn concat_chars(a: &[char], b: &[char]) -> (r: Vec<char>)
    ensures
        r@ == a@ + b@,
{
    let mut r: Vec<char> = Vec::new();
    let mut i: usize = 0;
    while i < a.len()
        invariant
            i <= a@.len(),
            r@ == a@.take(i as int),
        decreases a.len() - i,
    {
        r.push(a[i]);
        i = i + 1;
        assert(r@ =~= a@.take(i as int));
    }
    let mut j: usize = 0;
    while j < b.len()
        invariant
            j <= b@.len(),
            i == a@.len(),
            r@ == a@ + b@.take(j as int),
        decreases b.len() - j,
    {
        r.push(b[j]);
        j = j + 1;
        assert(r@ =~= a@ + b@.take(j as int));
    }
    assert(b@.take(b@.len() as int) =~= b@);
    assert(a@.take(a@.len() as int) =~= a@);
    r
}

proof fn lemma_trim_start_skip(s: Seq<char>, i: int)
    requires
        0 <= i <= s.len(),
        forall|j: int| 0 <= j < i ==> is_space(#[trigger] s[j]),
    ensures
        trim_start(s) == trim_start(s.skip(i)),
    decreases i,
{
    if i > 0 {
        assert(s.drop_first().skip(i - 1) =~= s.skip(i));
        assert forall|j: int| 0 <= j < i - 1 implies is_space(#[trigger] s.drop_first()[j]) by {
            assert(s.drop_first()[j] == s[j + 1]);
        }
        lemma_trim_start_skip(s.drop_first(), i - 1);
    } else {
        assert(s.skip(0) =~= s);
    }
}

proof fn lemma_trim_end_take(s: Seq<char>, i: int)
    requires
        0 <= i <= s.len(),
        forall|j: int| i <= j < s.len() ==> is_space(#[trigger] s[j]),
    ensures
        trim_end(s) == trim_end(s.take(i)),
    decreases s.len() - i,
{
    if i < s.len() {
        assert(s.drop_last().take(i) =~= s.take(i));
        lemma_trim_end_take(s.drop_last(), i);
    } else {
        assert(s.take(i) =~= s);
    }
}

/// `s` without leading and trailing whitespace.
pub fn trim_chars(s: &[char]) -> (r: Vec<char>)
    ensures
        r@ == trim(s@),
{
    let mut start: usize = 0;
    while start < s.len() && is_space_char(s[start])
        invariant
            start <= s@.len(),
            forall|j: int| 0 <= j < start ==> is_space(#[trigger] s@[j]),
        decreases s.len() - start,
    {
        start = start + 1;
    }
    proof {
        lemma_trim_start_skip(s@, start as int);
        assert(trim_start(s@.skip(start as int)) == s@.skip(start as int));
    }
    let rest = sub_chars(s, start, s.len());
    assert(rest@ =~= s@.skip(start as int));
    let mut end: usize = rest.len();
    while end > 0 && is_space_char(rest[end - 1])
        invariant
            end <= rest@.len(),
            forall|j: int| end <= j < rest@.len() ==> is_space(#[trigger] rest@[j]),
        decreases end,
    {
        end = end - 1;
    }
    proof {
        lemma_trim_end_take(rest@, end as int);
        assert(trim_end(rest@.take(end as int)) == rest@.take(end as int));
    }
    let r = sub_chars(rest.as_slice(), 0, end);
    assert(r@ =~= rest@.take(end as int));
    r
}

/// The pieces of `s` between occurrences of `sep`.
pub fn split_chars(s: &[char], sep: char) -> (r: Vec<Vec<char>>)
    ensures
        r.deep_view() == split_on(s@, sep),
        r@.len() >= 1,
{
    let mut done: Vec<Vec<char>> = Vec::new();
    let mut cur: Vec<char> = Vec::new();
    let mut i: usize = 0;
    while i < s.len()
        invariant
            i <= s@.len(),
            done.deep_view().push(cur@) == split_on(s@.take(i as int), sep),
        decreases s.len() - i,
    {
        let ghost before = s@.take(i as int);
        let ghost pieces = split_on(before, sep);
        assert(s@.take(i + 1).drop_last() =~= before);
        if s[i] == sep {
            let ghost d0 = done.deep_view();
            let ghost c0 = cur@;
            let old_cur = cur;
            done.push(old_cur);
            cur = Vec::new();
            assert(done.deep_view() =~= d0.push(c0));
            assert(done.deep_view().push(cur@) =~= pieces.push(Seq::<char>::empty()));
        } else {
            cur.push(s[i]);
            assert(done.deep_view().push(cur@) =~= pieces.update(pieces.len() - 1, pieces.last().push(s@[i as int])));
        }
        i = i + 1;
    }
    assert(s@.take(s@.len() as int) =~= s@);
    let ghost d0 = done.deep_view();
    let ghost c0 = cur@;
    done.push(cur);
    assert(done.deep_view() =~= d0.push(c0));
    done
}

/// The pieces joined with the text `sep` between them.
pub fn join_chars(parts: &Vec<Vec<char>>, sep: &[char]) -> (r: Vec<char>)
    ensures
        r@ == join_with(parts.deep_view(), sep@),
{
    let mut r: Vec<char> = Vec::new();
    let mut i: usize = 0;
    while i < parts.len()
        invariant
            i <= parts@.len(),
            r@ == join_with(parts.deep_view().take(i as int), sep@),
        decreases parts.len() - i,
    {
        let ghost taken = parts.deep_view().take(i + 1);
        assert(taken.drop_last() =~= parts.deep_view().take(i as int));
        if i == 0 {
            r = concat_chars(r.as_slice(), parts[i].as_slice());
            assert(r@ =~= taken[0]);
        } else {
            let with_sep = concat_chars(r.as_slice(), sep);
            r = concat_chars(with_sep.as_slice(), parts[i].as_slice());
        }
        i = i + 1;
    }
    assert(parts.deep_view().take(parts@.len() as int) =~= parts.deep_view());
    r
}

/// The pieces that are not empty.
pub fn non_empty_parts(parts: &Vec<Vec<char>>) -> (r: Vec<Vec<char>>)
    ensures
        r.deep_view() == non_empty(parts.deep_view()),
{
    let mut r: Vec<Vec<char>> = Vec::new();
    let mut i: usize = 0;
    while i < parts.len()
        invariant
            i <= parts@.len(),
            r.deep_view() == non_empty(parts.deep_view().take(i as int)),
        decreases parts.len() - i,
    {
        assert(parts.deep_view().take(i + 1).drop_last() =~= parts.deep_view().take(i as int));
        if parts[i].len() > 0 {
            let p = copy_chars(&parts[i]);
            r.push(p);
            assert(r.deep_view() =~= non_empty(parts.deep_view().take(i as int)).push(parts.deep_view()[i as int]));
        }
        i = i + 1;
    }
    assert(parts.deep_view().take(parts@.len() as int) =~= parts.deep_view());
    r
}

/// A copy of `v`.
pub fn copy_chars(v: &Vec<char>) -> (r: Vec<char>)
    ensures
        r@ == v@,
{
    sub_chars(v.as_slice(), 0, v.len())
}

/// Whether `a` and `b` are equal when ASCII letter case is ignored.
pub fn chars_eq_ignore_case(a: &[char], b: &[char]) -> (r: bool)
    ensures
        r == eq_ignore_case(a@, b@),
{
    if a.len() != b.len() {
        return false;
    }
    let mut i: usize = 0;
    while i < a.len()
        invariant
            i <= a@.len(),
            a@.len() == b@.len(),
            forall|j: int| 0 <= j < i ==> upper(#[trigger] a@[j]) == upper(b@[j]),
        decreases a.len() - i,
    {
        if upper_char(a[i]) != upper_char(b[i]) {
            return false;
        }
        i = i + 1;
    }
    true
}

/// Whether `p` begins `s` when ASCII letter case is ignored.
pub fn chars_prefix_ignore_case(p: &[char], s: &[char]) -> (r: bool)
    ensures
        r == prefix_ignore_case(p@, s@),
{
    if p.len() > s.len() {
        return false;
    }
    let head = sub_chars(s, 0, p.len());
    assert(head@ =~= s@.take(p@.len() as int));
    chars_eq_ignore_case(p, head.as_slice())
}

/// Whether the texts `a` and `b` are equal when ASCII letter case is ignored.
pub fn str_eq_ignore_case(a: &str, b: &str) -> (r: bool)
    ensures
        r == eq_ignore_case(a@, b@),
{
    let x = chars_of(a);
    let y = chars_of(b);
    chars_eq_ignore_case(x.as_slice(), y.as_slice())
}

/// Whether the two character sequences are equal.
pub fn chars_eq(a: &[char], b: &[char]) -> (r: bool)
    ensures
        r == (a@ == b@),
{
    if a.len() != b.len() {
        return false;
    }
    let mut i: usize = 0;
    while i < a.len()
        invariant
            i <= a@.len(),
            a@.len() == b@.len(),
            forall|j: int| 0 <= j < i ==> #[trigger] a@[j] == b@[j],
        decreases a.len() - i,
    {
        if a[i] != b[i] {
            return false;
        }
        i = i + 1;
    }
    assert(a@ =~= b@);
    true
}

/// Whether the two strings are equal.
pub fn str_eq(a: &str, b: &str) -> (r: bool)
    ensures
        r == (a@ == b@),
{
    let x = chars_of(a);
    let y = chars_of(b);
    chars_eq(x.as_slice(), y.as_slice())
}

} // verus!

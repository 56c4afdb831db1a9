//! Header values: parsing a header into values with parameters, and rendering them again.
use vstd::prelude::*;
use crate::text::{
    is_space, trim, split_on, join_with, chars_of, string_of, split_chars, trim_chars, join_chars,
    sub_chars, concat_chars, copy_chars, is_trimmed, lemma_trimmed, lemma_trim_space_prefix,
    lemma_join_split, lemma_split_concat, lemma_split_without_sep, lemma_split_join,
};

use crate::context::{put, put_pair, keys_unique, lemma_put_at, lemma_put_keeps_keys_unique};

verus! {

broadcast use crate::views::lemma_char_vec_deep_view;

/// One value of an HTTP header, with its parameters (`text/html; q=0.5` has the value
/// `text/html` and the parameter `q` = `0.5`). `quote` records that the value was, or is
/// to be, written between double quotes.
#[derive(Debug, PartialEq, Eq)]
pub struct HeaderValue {
    pub value: String,
    pub params: Vec<(String, String)>,
    pub quote: bool,
}

/// What a header value holds, as plain sequences.
#[verifier::ext_equal]
pub struct HeaderValueModel {
    pub value: Seq<char>,
    pub params: Seq<(Seq<char>, Seq<char>)>,
    pub quote: bool,
}

impl View for HeaderValue {
    type V = HeaderValueModel;

    open spec fn view(&self) -> HeaderValueModel {
        HeaderValueModel { value: self.value@, params: self.params.deep_view(), quote: self.quote }
    }
}

impl DeepView for HeaderValue {
    type V = HeaderValueModel;

    open spec fn deep_view(&self) -> HeaderValueModel {
        self@
    }
}

/// `s` is written between double quotes.
pub open spec fn is_quoted(s: Seq<char>) -> bool {
    s.len() >= 2 && s[0] == '"' && s.last() == '"'
}

/// `s` without its surrounding double quotes, if it has them.
pub open spec fn unquote(s: Seq<char>) -> Seq<char> {
    if is_quoted(s) {
        s.subrange(1, s.len() - 1)
    } else {
        s
    }
}

/// A parameter `name=value`: the name is the text before the first `=`, the value the text
/// after it (empty when there is no `=`), both trimmed, the value unquoted.
pub open spec fn param_of(p: Seq<char>) -> (Seq<char>, Seq<char>) {
    let parts = split_on(p, '=');
    (trim(parts[0]), unquote(trim(join_with(parts.drop_first(), seq!['=']))))
}

/// The parameters written in the given `;`-separated pieces, each name once: a later
/// parameter of a name replaces the value of an earlier one. Blank pieces are skipped.
pub open spec fn params_of(parts: Seq<Seq<char>>) -> Seq<(Seq<char>, Seq<char>)>
    decreases parts.len(),
{
    if parts.len() == 0 {
        Seq::empty()
    } else {
        let rest = params_of(parts.drop_last());
        let p = trim(parts.last());
        if p.len() == 0 {
            rest
        } else {
            put(rest, param_of(p).0, param_of(p).1)
        }
    }
}

/// Law: the parameters read from the pieces hold each name once.
pub proof fn lemma_params_unique(parts: Seq<Seq<char>>)
    ensures
        keys_unique(params_of(parts)),
    decreases parts.len(),
{
    if parts.len() > 0 {
        lemma_params_unique(parts.drop_last());
        let p = trim(parts.last());
        if p.len() > 0 {
            lemma_put_keeps_keys_unique(params_of(parts.drop_last()), param_of(p).0, param_of(p).1);
        }
    }
}

/// One header value parsed from its text: the text before the first `;` is the value
/// (trimmed, and unquoted if it is quoted), the pieces after it are parameters.
pub open spec fn header_value_of(s: Seq<char>) -> HeaderValueModel {
    let parts = split_on(s, ';');
    let v = trim(parts[0]);
    HeaderValueModel { value: unquote(v), params: params_of(parts.drop_first()), quote: is_quoted(v) }
}

/// The header values written in the given `,`-separated pieces; blank pieces are skipped.
pub open spec fn header_values_of(pieces: Seq<Seq<char>>) -> Seq<HeaderValueModel>
    decreases pieces.len(),
{
    if pieces.len() == 0 {
        Seq::empty()
    } else {
        let rest = header_values_of(pieces.drop_last());
        let p = trim(pieces.last());
        if p.len() == 0 {
            rest
        } else {
            rest.push(header_value_of(p))
        }
    }
}

/// All the values of a header line, separated by commas.
pub open spec fn parse_header_values_spec(s: Seq<char>) -> Seq<HeaderValueModel> {
    header_values_of(split_on(s, ','))
}

/// The text `; name=value` for each parameter, in order.
pub open spec fn params_text(ps: Seq<(Seq<char>, Seq<char>)>) -> Seq<char>
    decreases ps.len(),
{
    if ps.len() == 0 {
        Seq::empty()
    } else {
        params_text(ps.drop_last()) + seq![';', ' '] + ps.last().0 + seq!['='] + ps.last().1
    }
}

/// The text of a value alone: between double quotes when `quote` is set.
pub open spec fn value_text(h: HeaderValueModel) -> Seq<char> {
    if h.quote {
        seq!['"'] + h.value + seq!['"']
    } else {
        h.value
    }
}

/// The text of a header value: the value (quoted when `quote` is set), then its parameters.
pub open spec fn render(h: HeaderValueModel) -> Seq<char> {
    value_text(h) + params_text(h.params)
}

/// A weak entity tag is written `W/` followed by the tag.
pub open spec fn is_weak(s: Seq<char>) -> bool {
    s.len() >= 2 && s[0] == 'W' && s[1] == '/'
}

/// The tag of a weak entity tag, without the `W/` and the quotes.
pub open spec fn weak_tag(s: Seq<char>) -> Seq<char> {
    unquote(s.skip(2))
}

/// The values of a header line joined with `, `.
pub open spec fn header_line(values: Seq<HeaderValueModel>) -> Seq<char> {
    join_with(Seq::new(values.len(), |i: int| render(values[i])), seq![',', ' '])
}

/// A parameter that reads back as itself from its text: its name holds no `;` or `=`, its
/// value no `;`, neither has whitespace at its ends, and the value is not itself quoted.
pub open spec fn writable_param(p: (Seq<char>, Seq<char>)) -> bool {
    &&& !p.0.contains(';') && !p.0.contains('=') && is_trimmed(p.0)
    &&& !p.1.contains(';') && is_trimmed(p.1) && !is_quoted(p.1)
}

/// A header value that reads back as itself from its text: the value holds no `;`, and
/// unless it is to be quoted it has no whitespace at its ends and is not itself quoted; each
/// parameter is writable, and no two parameters share a name.
pub open spec fn writable(h: HeaderValueModel) -> bool {
    &&& !h.value.contains(';')
    &&& keys_unique(h.params)
    &&& h.quote || (is_trimmed(h.value) && !is_quoted(h.value))
    &&& forall|i: int| 0 <= i < h.params.len() ==> writable_param(#[trigger] h.params[i])
}

/// The text `name=value` of a parameter.
pub open spec fn param_text(p: (Seq<char>, Seq<char>)) -> Seq<char> {
    p.0 + seq!['='] + p.1
}

/// The piece of a rendered header value that holds a parameter, after the `;` before it.
pub open spec fn param_piece(p: (Seq<char>, Seq<char>)) -> Seq<char> {
    seq![' '] + param_text(p)
}

proof fn lemma_no_char_concat(a: Seq<char>, b: Seq<char>, c: char)
    requires
        !a.contains(c),
        !b.contains(c),
    ensures
        !(a + b).contains(c),
{
    if (a + b).contains(c) {
        let k = choose|k: int| 0 <= k < (a + b).len() && (a + b)[k] == c;
        if k < a.len() {
            assert(a[k] == c);
        } else {
            assert(b[k - a.len()] == c);
        }
    }
}

proof fn lemma_param_round_trip(p: (Seq<char>, Seq<char>))
    requires
        writable_param(p),
    ensures
        param_of(param_text(p)) == p,
        trim(param_piece(p)) == param_text(p),
        param_text(p).len() > 0,
        !param_piece(p).contains(';'),
{
    let x = param_text(p);
    lemma_split_concat(p.0, p.1, '=');
    lemma_split_without_sep(p.0, '=');
    let parts = split_on(x, '=');
    assert(parts[0] == p.0);
    assert(parts.drop_first() =~= split_on(p.1, '='));
    lemma_join_split(p.1, '=');
    lemma_trimmed(p.0);
    lemma_trimmed(p.1);
    assert(param_of(x) == p);
    assert(param_piece(p) =~= seq![' '] + x);
    lemma_trim_space_prefix(x);
    assert(is_trimmed(x)) by {
        if p.0.len() > 0 {
            assert(x[0] == p.0[0]);
        } else {
            assert(x[0] == '=');
        }
        if p.1.len() > 0 {
            assert(x.last() == p.1.last());
        } else {
            assert(x.last() == '=');
        }
    }
    lemma_trimmed(x);
    assert(!seq![' '].contains(';')) by {
        if seq![' '].contains(';') {
            let k = choose|k: int| 0 <= k < 1 && seq![' '][k] == ';';
        }
    }
    assert(!seq!['='].contains(';')) by {
        if seq!['='].contains(';') {
            let k = choose|k: int| 0 <= k < 1 && seq!['='][k] == ';';
        }
    }
    lemma_no_char_concat(seq![' '], p.0, ';');
    lemma_no_char_concat(seq![' '] + p.0, seq!['='], ';');
    lemma_no_char_concat(seq![' '] + p.0 + seq!['='], p.1, ';');
    assert(seq![' '] + p.0 + seq!['='] + p.1 =~= param_piece(p));
}

proof fn lemma_split_rendered(vt: Seq<char>, ps: Seq<(Seq<char>, Seq<char>)>)
    requires
        !vt.contains(';'),
        forall|i: int| 0 <= i < ps.len() ==> writable_param(#[trigger] ps[i]),
    ensures
        split_on(vt + params_text(ps), ';') == seq![vt] + Seq::new(ps.len(), |i: int| param_piece(ps[i])),
    decreases ps.len(),
{
    if ps.len() == 0 {
        assert(vt + params_text(ps) =~= vt);
        lemma_split_without_sep(vt, ';');
        assert(seq![vt] + Seq::new(ps.len(), |i: int| param_piece(ps[i])) =~= seq![vt]);
    } else {
        let init = ps.drop_last();
        assert forall|i: int| 0 <= i < init.len() implies writable_param(#[trigger] init[i]) by {
            assert(init[i] == ps[i]);
        }
        lemma_split_rendered(vt, init);
        let last = ps.last();
        assert(writable_param(ps[ps.len() - 1]));
        lemma_param_round_trip(last);
        let a = vt + params_text(init);
        assert(vt + params_text(ps) =~= a + seq![';'] + param_piece(last));
        lemma_split_concat(a, param_piece(last), ';');
        lemma_split_without_sep(param_piece(last), ';');
        assert(seq![vt] + Seq::new(init.len(), |i: int| param_piece(init[i])) + seq![param_piece(last)]
            =~= seq![vt] + Seq::new(ps.len(), |i: int| param_piece(ps[i])));
    }
}

proof fn lemma_params_of_pieces(ps: Seq<(Seq<char>, Seq<char>)>)
    requires
        forall|i: int| 0 <= i < ps.len() ==> writable_param(#[trigger] ps[i]),
        keys_unique(ps),
    ensures
        params_of(Seq::new(ps.len(), |i: int| param_piece(ps[i]))) == ps,
    decreases ps.len(),
{
    let pieces = Seq::new(ps.len(), |i: int| param_piece(ps[i]));
    if ps.len() > 0 {
        let init = ps.drop_last();
        assert forall|i: int| 0 <= i < init.len() implies writable_param(#[trigger] init[i]) by {
            assert(init[i] == ps[i]);
        }
        assert(keys_unique(init)) by {
            assert forall|i: int, j: int| 0 <= i < j < init.len() implies (#[trigger] init[i]).0 != (
            #[trigger] init[j]).0 by {
                assert(init[i] == ps[i] && init[j] == ps[j]);
            }
        }
        lemma_params_of_pieces(init);
        assert(pieces.drop_last() =~= Seq::new(init.len(), |i: int| param_piece(init[i])));
        assert(writable_param(ps[ps.len() - 1]));
        lemma_param_round_trip(ps.last());
        assert(pieces.last() == param_piece(ps.last()));
        let last = ps.last();
        assert forall|j: int| 0 <= j < init.len() implies #[trigger] init[j].0 != last.0 by {
            assert(init[j] == ps[j]);
            assert(ps[j].0 != ps[ps.len() - 1].0);
        }
        lemma_put_at(init, last.0, last.1, init.len() as int);
        assert(init.push(last) =~= ps);
    } else {
        assert(ps =~= Seq::<(Seq<char>, Seq<char>)>::empty());
    }
}

/// Law: the text of a writable header value parses back to the same value.
pub proof fn lemma_header_value_round_trip(h: HeaderValueModel)
    requires
        writable(h),
    ensures
        header_value_of(render(h)) == h,
{
    let vt = value_text(h);
    assert(!vt.contains(';')) by {
        if h.quote {
            assert(!seq!['"'].contains(';')) by {
                if seq!['"'].contains(';') {
                    let k = choose|k: int| 0 <= k < 1 && seq!['"'][k] == ';';
                }
            }
            lemma_no_char_concat(seq!['"'], h.value, ';');
            lemma_no_char_concat(seq!['"'] + h.value, seq!['"'], ';');
        }
    }
    lemma_split_rendered(vt, h.params);
    let parts = split_on(render(h), ';');
    assert(parts[0] == vt);
    assert(parts.drop_first() =~= Seq::new(h.params.len(), |i: int| param_piece(h.params[i])));
    lemma_params_of_pieces(h.params);
    assert(is_trimmed(vt));
    lemma_trimmed(vt);
    if h.quote {
        assert(is_quoted(vt));
        assert(vt.subrange(1, vt.len() - 1) =~= h.value);
    }
    assert(header_value_of(render(h)) =~= h);
}

proof fn lemma_params_text_ends(ps: Seq<(Seq<char>, Seq<char>)>)
    requires
        ps.len() > 0,
    ensures
        params_text(ps).len() > 0,
        params_text(ps)[0] == ';',
        params_text(ps).last() == param_text(ps.last()).last(),
        param_text(ps.last()).len() > 0,
    decreases ps.len(),
{
    let init = ps.drop_last();
    let x = param_text(ps.last());
    assert(params_text(ps) =~= params_text(init) + seq![';', ' '] + x);
    if init.len() > 0 {
        lemma_params_text_ends(init);
    } else {
        assert(params_text(init) =~= Seq::<char>::empty());
    }
}

proof fn lemma_rendered_trimmed(h: HeaderValueModel)
    requires
        writable(h),
        render(h).len() > 0,
    ensures
        is_trimmed(render(h)),
{
    let vt = value_text(h);
    let r = render(h);
    assert(vt.len() > 0 ==> !is_space(vt[0]) && !is_space(vt.last()));
    if h.params.len() == 0 {
        assert(r =~= vt);
    } else {
        lemma_params_text_ends(h.params);
        let last = h.params.last();
        assert(writable_param(h.params[h.params.len() - 1]));
        assert(r.last() == param_text(last).last());
        if last.1.len() > 0 {
            assert(param_text(last).last() == last.1.last());
        } else {
            assert(param_text(last).last() == '=');
        }
        if vt.len() > 0 {
            assert(r[0] == vt[0]);
        } else {
            assert(r[0] == params_text(h.params)[0]);
        }
    }
}

/// The texts of the values of a line, each after the first with the space that follows the
/// comma before it.
pub open spec fn spaced(t: Seq<Seq<char>>) -> Seq<Seq<char>> {
    Seq::new(t.len(), |i: int| if i == 0 { t[0] } else { seq![' '] + t[i] })
}

proof fn lemma_join_spaced(t: Seq<Seq<char>>, c: char)
    ensures
        join_with(t, seq![c, ' ']) == join_with(spaced(t), seq![c]),
    decreases t.len(),
{
    if t.len() > 1 {
        lemma_join_spaced(t.drop_last(), c);
        assert(spaced(t).drop_last() =~= spaced(t.drop_last()));
        assert(spaced(t).last() == seq![' '] + t.last());
        assert(join_with(t.drop_last(), seq![c, ' ']) + seq![c, ' '] + t.last() =~= join_with(
            spaced(t.drop_last()),
            seq![c],
        ) + seq![c] + (seq![' '] + t.last()));
    } else if t.len() == 1 {
        assert(spaced(t)[0] == t[0]);
    }
}

/// The texts of the values.
pub open spec fn rendered(vs: Seq<HeaderValueModel>) -> Seq<Seq<char>> {
    Seq::new(vs.len(), |i: int| render(vs[i]))
}

/// The values can be written on one line and read back: each is writable, and its text is
/// not empty and holds no comma.
pub open spec fn writable_line(vs: Seq<HeaderValueModel>) -> bool {
    forall|i: int|
        0 <= i < vs.len() ==> writable(#[trigger] vs[i]) && render(vs[i]).len() > 0 && !render(vs[i]).contains(',')
}

proof fn lemma_values_of_spaced(vs: Seq<HeaderValueModel>)
    requires
        writable_line(vs),
    ensures
        header_values_of(spaced(rendered(vs))) == vs,
    decreases vs.len(),
{
    if vs.len() > 0 {
        let init = vs.drop_last();
        assert forall|i: int| 0 <= i < init.len() implies writable(#[trigger] init[i]) && render(init[i]).len() > 0
            && !render(init[i]).contains(',') by {
            assert(init[i] == vs[i]);
        }
        lemma_values_of_spaced(init);
        let t = spaced(rendered(vs));
        assert(t.drop_last() =~= spaced(rendered(init)));
        let last = vs.last();
        assert(writable(vs[vs.len() - 1]));
        lemma_rendered_trimmed(last);
        lemma_trimmed(render(last));
        if vs.len() > 1 {
            assert(t.last() == seq![' '] + render(last));
            lemma_trim_space_prefix(render(last));
        } else {
            assert(t.last() == render(last));
        }
        lemma_header_value_round_trip(last);
        assert(init.push(last) =~= vs);
    } else {
        assert(vs =~= Seq::<HeaderValueModel>::empty());
        assert(spaced(rendered(vs)) =~= Seq::<Seq<char>>::empty());
    }
}

/// Law: a header line written from values that can be written on one line parses back to
/// the same values, in order.
pub proof fn lemma_header_line_round_trip(vs: Seq<HeaderValueModel>)
    requires
        writable_line(vs),
    ensures
        parse_header_values_spec(header_line(vs)) == vs,
{
    let t = rendered(vs);
    assert(Seq::new(vs.len(), |i: int| render(vs[i])) =~= t);
    if vs.len() == 0 {
        assert(header_line(vs) =~= Seq::<char>::empty());
        assert(split_on(header_line(vs), ',') =~= seq![Seq::<char>::empty()]);
        assert(trim(Seq::<char>::empty()) =~= Seq::<char>::empty()) by {
            lemma_trimmed(Seq::<char>::empty());
        }
        assert(seq![Seq::<char>::empty()].drop_last() =~= Seq::<Seq<char>>::empty());
        assert(header_values_of(Seq::<Seq<char>>::empty()) =~= Seq::<HeaderValueModel>::empty());
        assert(header_values_of(seq![Seq::<char>::empty()]) =~= Seq::<HeaderValueModel>::empty());
        assert(vs =~= Seq::<HeaderValueModel>::empty());
    } else {
        lemma_join_spaced(t, ',');
        let sp = spaced(t);
        assert forall|i: int| 0 <= i < sp.len() implies !(#[trigger] sp[i]).contains(',') by {
            assert(writable(vs[i]) && !render(vs[i]).contains(','));
            if i > 0 {
                assert(!seq![' '].contains(',')) by {
                    if seq![' '].contains(',') {
                        let k = choose|k: int| 0 <= k < 1 && seq![' '][k] == ',';
                    }
                }
                lemma_no_char_concat(seq![' '], t[i], ',');
            }
        }
        lemma_split_join(sp, ',');
        lemma_values_of_spaced(vs);
        assert(header_line(vs) == join_with(t, seq![',', ' ']));
        assert(split_on(header_line(vs), ',') == sp);
    }
}

/// A copy of a list of string pairs.
pub fn copy_pairs(v: &Vec<(String, String)>) -> (r: Vec<(String, String)>)
    ensures
        r.deep_view() == v.deep_view(),
{
    let mut r: Vec<(String, String)> = Vec::new();
    let mut i: usize = 0;
    while i < v.len()
        invariant
            i <= v@.len(),
            r.deep_view() == v.deep_view().take(i as int),
        decreases v.len() - i,
    {
        let ghost before = r.deep_view();
        let k = v[i].0.clone();
        let x = v[i].1.clone();
        r.push((k, x));
        assert(r.deep_view() =~= before.push(v.deep_view()[i as int]));
        assert(v.deep_view().take(i + 1) =~= v.deep_view().take(i as int).push(v.deep_view()[i as int]));
        i = i + 1;
    }
    assert(v.deep_view().take(v@.len() as int) =~= v.deep_view());
    r
}

impl Clone for HeaderValue {
    fn clone(&self) -> (r: Self)
        ensures
            r@ == self@,
    {
        HeaderValue { value: self.value.clone(), params: copy_pairs(&self.params), quote: self.quote }
    }
}

/// A copy of a list of header values.
pub fn copy_values(v: &Vec<HeaderValue>) -> (r: Vec<HeaderValue>)
    ensures
        r.deep_view() == v.deep_view(),
{
    let mut r: Vec<HeaderValue> = Vec::new();
    let mut i: usize = 0;
    while i < v.len()
        invariant
            i <= v@.len(),
            r.deep_view() == v.deep_view().take(i as int),
        decreases v.len() - i,
    {
        let ghost before = r.deep_view();
        let x = v[i].clone();
        r.push(x);
        assert(r.deep_view() =~= before.push(v.deep_view()[i as int]));
        assert(v.deep_view().take(i + 1) =~= v.deep_view().take(i as int).push(v.deep_view()[i as int]));
        i = i + 1;
    }
    assert(v.deep_view().take(v@.len() as int) =~= v.deep_view());
    r
}

/// `s` without its surrounding double quotes, and whether it had them.
fn unquote_chars(s: &Vec<char>) -> (r: (Vec<char>, bool))
    ensures
        r.0@ == unquote(s@),
        r.1 == is_quoted(s@),
{
    if s.len() >= 2 && s[0] == '"' && s[s.len() - 1] == '"' {
        (sub_chars(s.as_slice(), 1, s.len() - 1), true)
    } else {
        (copy_chars(s), false)
    }
}

/// The pieces after the first one.
fn tail_parts(parts: &Vec<Vec<char>>) -> (r: Vec<Vec<char>>)
    requires
        parts@.len() >= 1,
    ensures
        r.deep_view() == parts.deep_view().drop_first(),
{
    let mut r: Vec<Vec<char>> = Vec::new();
    let mut i: usize = 1;
    while i < parts.len()
        invariant
            1 <= i <= parts@.len(),
            r.deep_view() == parts.deep_view().subrange(1, i as int),
        decreases parts.len() - i,
    {
        let ghost before = r.deep_view();
        let p = copy_chars(&parts[i]);
        r.push(p);
        assert(r.deep_view() =~= before.push(parts.deep_view()[i as int]));
        assert(parts.deep_view().subrange(1, i + 1) =~= parts.deep_view().subrange(1, i as int).push(
            parts.deep_view()[i as int],
        ));
        i = i + 1;
    }
    assert(parts.deep_view().subrange(1, parts@.len() as int) =~= parts.deep_view().drop_first());
    r
}

/// A parameter `name=value` read from its text.
fn param_chars(p: &Vec<char>) -> (r: (String, String))
    ensures
        (r.0@, r.1@) == param_of(p@),
{
    let parts = split_chars(p.as_slice(), '=');
    let name = trim_chars(parts[0].as_slice());
    let rest = tail_parts(&parts);
    let eq: Vec<char> = vec!['='];
    assert(eq@ =~= seq!['=']);
    let joined = join_chars(&rest, eq.as_slice());
    let trimmed = trim_chars(joined.as_slice());
    let (value, _) = unquote_chars(&trimmed);
    (string_of(name.as_slice()), string_of(value.as_slice()))
}

impl HeaderValue {
    /// A header value with the given text, no parameters and no quotes.
    pub fn basic(s: &str) -> (r: HeaderValue)
        ensures
            r@ == (HeaderValueModel { value: s@, params: Seq::empty(), quote: false }),
    {
        let v = chars_of(s);
        let r = HeaderValue { value: string_of(v.as_slice()), params: Vec::new(), quote: false };
        assert(r@ =~= (HeaderValueModel { value: s@, params: Seq::empty(), quote: false }));
        r
    }

    /// The same value, to be written between double quotes.
    pub fn quote(self) -> (r: HeaderValue)
        ensures
            r@ == (HeaderValueModel { quote: true, ..self@ }),
    {
        HeaderValue { quote: true, ..self }
    }

    /// Parses one header value with its parameters, such as `text/plain; q=0.5`.
    pub fn parse_string(s: &str) -> (r: HeaderValue)
        ensures
            r@ == header_value_of(s@),
            keys_unique(r@.params),
    {
        let cs = chars_of(s);
        Self::parse_chars(&cs)
    }

    /// Parses one header value from its characters.
    pub fn parse_chars(cs: &Vec<char>) -> (r: HeaderValue)
        ensures
            r@ == header_value_of(cs@),
            keys_unique(r@.params),
    {
        proof {
            lemma_params_unique(split_on(cs@, ';').drop_first());
        }
        let parts = split_chars(cs.as_slice(), ';');
        let first = trim_chars(parts[0].as_slice());
        let (value, quoted) = unquote_chars(&first);
        let mut params: Vec<(String, String)> = Vec::new();
        let mut i: usize = 1;
        while i < parts.len()
            invariant
                1 <= i <= parts@.len(),
                parts.deep_view() == split_on(cs@, ';'),
                params.deep_view() == params_of(parts.deep_view().subrange(1, i as int)),
            decreases parts.len() - i,
        {
            let ghost before = params.deep_view();
            let ghost pieces = parts.deep_view().subrange(1, i + 1);
            assert(pieces.drop_last() =~= parts.deep_view().subrange(1, i as int));
            let p = trim_chars(parts[i].as_slice());
            if p.len() > 0 {
                let pair = param_chars(&p);
                put_pair(&mut params, pair.0.as_str(), pair.1.as_str());
            }
            i = i + 1;
        }
        assert(parts.deep_view().subrange(1, parts@.len() as int) =~= parts.deep_view().drop_first());
        let r = HeaderValue { value: string_of(value.as_slice()), params, quote: quoted };
        assert(r@ =~= header_value_of(cs@));
        r
    }

    /// The tag of a weak entity tag (`W/"tag"` gives `tag`), or `None` for a strong one.
    pub fn weak_etag(&self) -> (r: Option<String>)
        ensures
            is_weak(self.value@) ==> r is Some && r->0@ == weak_tag(self.value@),
            !is_weak(self.value@) ==> r is None,
    {
        let cs = chars_of(self.value.as_str());
        if cs.len() >= 2 && cs[0] == 'W' && cs[1] == '/' {
            let rest = sub_chars(cs.as_slice(), 2, cs.len());
            assert(rest@ =~= cs@.skip(2));
            let (tag, _) = unquote_chars(&rest);
            Some(string_of(tag.as_slice()))
        } else {
            None
        }
    }

    /// The text of this header value.
    pub fn to_string(&self) -> (r: String)
        ensures
            r@ == render(self@),
    {
        let value = chars_of(self.value.as_str());
        let mut body = if self.quote {
            let q: Vec<char> = vec!['"'];
            let a = concat_chars(q.as_slice(), value.as_slice());
            concat_chars(a.as_slice(), q.as_slice())
        } else {
            value
        };
        assert(body@ =~= value_text(self@));
        let mut i: usize = 0;
        while i < self.params.len()
            invariant
                i <= self.params@.len(),
                body@ == value_text(self@) + params_text(self.params.deep_view().take(i as int)),
            decreases self.params.len() - i,
        {
            let ghost ps = self.params.deep_view().take(i + 1);
            assert(ps.drop_last() =~= self.params.deep_view().take(i as int));
            let sep: Vec<char> = vec![';', ' '];
            let eq: Vec<char> = vec!['='];
            let k = chars_of(self.params[i].0.as_str());
            let x = chars_of(self.params[i].1.as_str());
            let b1 = concat_chars(body.as_slice(), sep.as_slice());
            let b2 = concat_chars(b1.as_slice(), k.as_slice());
            let b3 = concat_chars(b2.as_slice(), eq.as_slice());
            body = concat_chars(b3.as_slice(), x.as_slice());
            assert(body@ =~= value_text(self@) + params_text(ps));
            i = i + 1;
        }
        assert(self.params.deep_view().take(self.params@.len() as int) =~= self.params.deep_view());
        string_of(body.as_slice())
    }
}

/// Parses the values of a header line separated by commas, such as
/// `text/plain; q=0.5, text/html`.
pub fn parse_header_values(s: &str) -> (r: Vec<HeaderValue>)
    ensures
        r.deep_view() == parse_header_values_spec(s@),
        forall|i: int| 0 <= i < r.len() ==> keys_unique((#[trigger] r@[i])@.params),
{
    let cs = chars_of(s);
    let pieces = split_chars(cs.as_slice(), ',');
    let mut r: Vec<HeaderValue> = Vec::new();
    let mut i: usize = 0;
    while i < pieces.len()
        invariant
            i <= pieces@.len(),
            pieces.deep_view() == split_on(s@, ','),
            r.deep_view() == header_values_of(pieces.deep_view().take(i as int)),
            forall|j: int| 0 <= j < r.len() ==> keys_unique((#[trigger] r@[j])@.params),
        decreases pieces.len() - i,
    {
        let ghost before = r.deep_view();
        assert(pieces.deep_view().take(i + 1).drop_last() =~= pieces.deep_view().take(i as int));
        let p = trim_chars(pieces[i].as_slice());
        if p.len() > 0 {
            let v = HeaderValue::parse_chars(&p);
            r.push(v);
            assert(r.deep_view() =~= before.push(header_value_of(p@)));
        }
        i = i + 1;
    }
    assert(pieces.deep_view().take(pieces@.len() as int) =~= pieces.deep_view());
    r
}

/// The values joined into one header line, separated by `, `.
pub fn header_line_of(values: &Vec<HeaderValue>) -> (r: String)
    ensures
        r@ == header_line(values.deep_view()),
{
    let mut texts: Vec<Vec<char>> = Vec::new();
    let mut i: usize = 0;
    while i < values.len()
        invariant
            i <= values@.len(),
            texts.deep_view() == Seq::new(i as nat, |j: int| render(values.deep_view()[j])),
        decreases values.len() - i,
    {
        let ghost before = texts.deep_view();
        let t = values[i].to_string();
        let tc = chars_of(t.as_str());
        texts.push(tc);
        assert(values.deep_view()[i as int] == values@[i as int]@);
        assert(texts.deep_view() =~= before.push(tc@));
        assert(texts.deep_view() =~= Seq::new((i + 1) as nat, |j: int| render(values.deep_view()[j])));
        i = i + 1;
    }
    let sep: Vec<char> = vec![',', ' '];
    assert(sep@ =~= seq![',', ' ']);
    let line = join_chars(&texts, sep.as_slice());
    string_of(line.as_slice())
}

} // verus!

//! Request paths: splitting into segments, joining, matching against route templates such
//! as `/path/{id}`, and recording the route a request was dispatched to.
use vstd::prelude::*;
use crate::text::{
    lemma_non_empty_parts, lemma_split_concat, lemma_join_prefix, lemma_split_join, lemma_non_empty_concat,
    lemma_non_empty_same, lemma_split_pieces, split_on, non_empty, join_with, chars_of, string_of, split_chars, non_empty_parts, join_chars,
    sub_chars, chars_eq, concat_chars, copy_chars,
};
use crate::context::{
    WebmachineRequest, WebmachineContext, put, lookup, lemma_put_lookup_same, lemma_put_lookup_other, put_pair, keys_unique,
    lemma_put_keeps_keys_unique,
};

verus! {

broadcast use crate::views::lemma_char_vec_deep_view;

/// The segments of a path: the pieces between `/`, without the empty ones.
pub open spec fn segments(path: Seq<char>) -> Seq<Seq<char>> {
    non_empty(split_on(path, '/'))
}

/// The path made of the non-empty pieces joined with `/`, starting with `/`.
pub open spec fn joined_path(parts: Seq<Seq<char>>) -> Seq<char> {
    let j = join_with(non_empty(parts), seq!['/']);
    if j.len() > 0 && j[0] == '/' {
        j
    } else {
        seq!['/'] + j
    }
}

/// A template segment `{name}` stands for any one segment of a request path.
pub open spec fn is_var(seg: Seq<char>) -> bool {
    seg.len() >= 2 && seg[0] == '{' && seg.last() == '}'
}

/// The name of the variable in a template segment `{name}`.
pub open spec fn var_name(seg: Seq<char>) -> Seq<char> {
    seg.subrange(1, seg.len() - 1)
}

/// The template's segments are a prefix of the path's segments, a variable segment of the
/// template matching any segment.
pub open spec fn template_matches(parts: Seq<Seq<char>>, template: Seq<Seq<char>>) -> bool {
    template.len() <= parts.len() && forall|i: int|
        0 <= i < template.len() ==> is_var(#[trigger] template[i]) || template[i] == parts[i]
}

/// Each segment of the path with the name of the template variable it stands in, if any.
pub open spec fn mapped_parts(parts: Seq<Seq<char>>, template: Seq<Seq<char>>) -> Seq<
    (Seq<char>, Option<Seq<char>>),
> {
    Seq::new(
        parts.len(),
        |i: int|
            (parts[i], if i < template.len() && is_var(template[i]) {
                Some(var_name(template[i]))
            } else {
                None
            }),
    )
}

/// The routes (in the order given) that match the path, each with its mapped segments.
pub open spec fn route_matches(routes: Seq<Seq<char>>, parts: Seq<Seq<char>>) -> Seq<
    (Seq<char>, Seq<(Seq<char>, Option<Seq<char>>)>),
>
    decreases routes.len(),
{
    if routes.len() == 0 {
        Seq::empty()
    } else {
        let rest = route_matches(routes.drop_last(), parts);
        let t = segments(routes.last());
        if template_matches(parts, t) {
            rest.push((routes.last(), mapped_parts(parts, t)))
        } else {
            rest
        }
    }
}

/// The path variables named in the mapped segments, each name once with the segment it
/// stood for (a later one of the same name replacing an earlier one).
pub open spec fn vars_of(parts: Seq<(Seq<char>, Option<Seq<char>>)>) -> Seq<(Seq<char>, Seq<char>)>
    decreases parts.len(),
{
    if parts.len() == 0 {
        Seq::empty()
    } else {
        let rest = vars_of(parts.drop_last());
        match parts.last().1 {
            Some(name) => put(rest, name, parts.last().0),
            None => rest,
        }
    }
}

/// The part of the request below the route: the mapped segments after the route's own
/// segments, joined with `/`, or none when there are no more segments.
pub open spec fn sub_path_of(base_path: Seq<char>, parts: Seq<(Seq<char>, Option<Seq<char>>)>) -> Option<
    Seq<char>,
> {
    let n = segments(base_path).len();
    if parts.len() > n {
        Some(join_with(Seq::new(parts.len(), |i: int| parts[i].0).skip(n as int), seq!['/']))
    } else {
        None
    }
}

/// The index of the match whose route is longest, the first one among equally long ones.
pub open spec fn is_longest_match<T>(matches: Seq<(Seq<char>, T)>, i: int) -> bool {
    &&& 0 <= i < matches.len()
    &&& forall|j: int| 0 <= j < matches.len() ==> (#[trigger] matches[j]).0.len() <= matches[i].0.len()
    &&& forall|j: int| 0 <= j < i ==> (#[trigger] matches[j]).0.len() < matches[i].0.len()
}

/// Law: the segments of a path joined from segments that hold no `/` are those segments
/// without the empty ones; `sanitise_path` undoes `join_paths`.
pub proof fn lemma_segments_of_joined_path(parts: Seq<Seq<char>>)
    requires
        forall|i: int| 0 <= i < parts.len() ==> !(#[trigger] parts[i]).contains('/'),
    ensures
        segments(joined_path(parts)) == non_empty(parts),
{
    let q = non_empty(parts);
    lemma_non_empty_parts(parts);
    assert forall|i: int| 0 <= i < q.len() implies !(#[trigger] q[i]).contains('/') by {
        let k = choose|k: int| 0 <= k < parts.len() && parts[k] == q[i];
        assert(!parts[k].contains('/'));
    }
    let e = Seq::<char>::empty();
    lemma_split_concat(e, e, '/');
    assert(e + seq!['/'] + e =~= seq!['/']);
    assert(split_on(e, '/') =~= seq![e]);
    assert(non_empty(seq![e]) =~= Seq::<Seq<char>>::empty()) by {
        assert(seq![e].drop_last() =~= Seq::<Seq<char>>::empty());
        assert(non_empty(Seq::<Seq<char>>::empty()) =~= Seq::<Seq<char>>::empty());
        assert(seq![e].last().len() == 0);
    }
    if q.len() == 0 {
        assert(join_with(q, seq!['/']) =~= e);
        assert(joined_path(parts) =~= seq!['/']);
        lemma_non_empty_concat(seq![e], seq![e]);
        assert(seq![e] + seq![e] =~= split_on(seq!['/'], '/'));
        assert(non_empty(seq![e]) + non_empty(seq![e]) =~= Seq::<Seq<char>>::empty());
    } else {
        let j = join_with(q, seq!['/']);
        lemma_join_prefix(q, seq!['/']);
        assert(q[0].len() > 0);
        assert(j[0] == q[0][0]);
        assert(j[0] != '/');
        assert(joined_path(parts) =~= e + seq!['/'] + j);
        lemma_split_concat(e, j, '/');
        lemma_split_join(q, '/');
        lemma_non_empty_concat(seq![e], q);
        lemma_non_empty_same(q);
        assert(non_empty(seq![e]) + q =~= q);
    }
}

/// Law: joining the segments of a path and taking the segments again gives the same
/// segments.
pub proof fn lemma_sanitised_path_round_trip(path: Seq<char>)
    ensures
        segments(joined_path(segments(path))) == segments(path),
{
    let parts = split_on(path, '/');
    lemma_split_pieces(path, '/');
    lemma_non_empty_parts(parts);
    let q = segments(path);
    assert forall|i: int| 0 <= i < q.len() implies !(#[trigger] q[i]).contains('/') by {
        let k = choose|k: int| 0 <= k < parts.len() && parts[k] == q[i];
        assert(!parts[k].contains('/'));
    }
    lemma_segments_of_joined_path(q);
    lemma_non_empty_parts(q);
    lemma_non_empty_same(q);
}

/// Law: the path variables hold each name once.
pub proof fn lemma_vars_unique(parts: Seq<(Seq<char>, Option<Seq<char>>)>)
    ensures
        keys_unique(vars_of(parts)),
    decreases parts.len(),
{
    if parts.len() > 0 {
        lemma_vars_unique(parts.drop_last());
        match parts.last().1 {
            Some(name) => lemma_put_keeps_keys_unique(vars_of(parts.drop_last()), name, parts.last().0),
            None => {},
        }
    }
}

proof fn lemma_vars_prefix(
    m: Seq<(Seq<char>, Option<Seq<char>>)>,
    i: int,
    k: int,
    name: Seq<char>,
    v: Seq<char>,
)
    requires
        0 <= i < k <= m.len(),
        m[i] == (v, Some(name)),
        forall|j: int| i < j < k ==> (#[trigger] m[j]).1 != Some(name),
    ensures
        lookup(vars_of(m.take(k)), name) == Some(v),
    decreases k - i,
{
    let mk = m.take(k);
    assert(mk.drop_last() =~= m.take(k - 1));
    assert(mk.last() == m[k - 1]);
    if k == i + 1 {
        lemma_put_lookup_same(vars_of(m.take(i)), name, v);
    } else {
        lemma_vars_prefix(m, i, k - 1, name, v);
        match m[k - 1].1 {
            Some(n) => lemma_put_lookup_other(vars_of(m.take(k - 1)), n, m[k - 1].0, name),
            None => {},
        }
    }
}

/// Law: when a route matches a path, each variable of the route that no later variable
/// shares a name with is bound to the path segment in its place.
pub proof fn lemma_path_variable_bound(parts: Seq<Seq<char>>, template: Seq<Seq<char>>, i: int)
    requires
        template_matches(parts, template),
        0 <= i < template.len(),
        is_var(template[i]),
        forall|j: int|
            i < j < template.len() && is_var(#[trigger] template[j]) ==> var_name(template[j]) != var_name(
                template[i],
            ),
    ensures
        lookup(vars_of(mapped_parts(parts, template)), var_name(template[i])) == Some(parts[i]),
{
    let m = mapped_parts(parts, template);
    let name = var_name(template[i]);
    assert(m[i] == (parts[i], Some(name)));
    assert forall|j: int| i < j < m.len() implies (#[trigger] m[j]).1 != Some(name) by {
        if j < template.len() && is_var(template[j]) {
            assert(var_name(template[j]) != name);
        }
    }
    lemma_vars_prefix(m, i, m.len() as int, name, parts[i]);
    assert(m.take(m.len() as int) =~= m);
}

/// The characters of each string.
pub fn chars_of_all(v: &Vec<String>) -> (r: Vec<Vec<char>>)
    ensures
        r.deep_view() == v.deep_view(),
{
    let mut r: Vec<Vec<char>> = Vec::new();
    let mut i: usize = 0;
    while i < v.len()
        invariant
            i <= v@.len(),
            r.deep_view() == v.deep_view().take(i as int),
        decreases v.len() - i,
    {
        let ghost before = r.deep_view();
        let c = chars_of(v[i].as_str());
        r.push(c);
        assert(r.deep_view() =~= before.push(v.deep_view()[i as int]));
        assert(v.deep_view().take(i + 1) =~= v.deep_view().take(i as int).push(v.deep_view()[i as int]));
        i = i + 1;
    }
    assert(v.deep_view().take(v@.len() as int) =~= v.deep_view());
    r
}

/// A string for each character sequence.
pub fn strings_of(v: &Vec<Vec<char>>) -> (r: Vec<String>)
    ensures
        r.deep_view() == v.deep_view(),
{
    let mut r: Vec<String> = Vec::new();
    let mut i: usize = 0;
    while i < v.len()
        invariant
            i <= v@.len(),
            r.deep_view() == v.deep_view().take(i as int),
        decreases v.len() - i,
    {
        let ghost before = r.deep_view();
        let s = string_of(v[i].as_slice());
        r.push(s);
        assert(r.deep_view() =~= before.push(v.deep_view()[i as int]));
        assert(v.deep_view().take(i + 1) =~= v.deep_view().take(i as int).push(v.deep_view()[i as int]));
        i = i + 1;
    }
    assert(v.deep_view().take(v@.len() as int) =~= v.deep_view());
    r
}

fn segment_chars(path: &[char]) -> (r: Vec<Vec<char>>)
    ensures
        r.deep_view() == segments(path@),
{
    let pieces = split_chars(path, '/');
    non_empty_parts(&pieces)
}

/// The segments of a path: `/a//b/c/` gives `a`, `b`, `c`.
pub fn sanitise_path(path: &str) -> (r: Vec<String>)
    ensures
        r.deep_view() == segments(path@),
{
    let cs = chars_of(path);
    let segs = segment_chars(cs.as_slice());
    strings_of(&segs)
}

/// The path made of the segments of `base` followed by those of `path`: the non-empty ones,
/// joined with `/`, starting with `/` (`/` alone when there are none).
pub fn join_paths(base: &Vec<String>, path: &Vec<String>) -> (r: String)
    ensures
        r@ == joined_path(base.deep_view() + path.deep_view()),
{
    let mut all = chars_of_all(base);
    let rest = chars_of_all(path);
    let ghost a0 = all.deep_view();
    let mut i: usize = 0;
    while i < rest.len()
        invariant
            i <= rest@.len(),
            all.deep_view() == a0 + rest.deep_view().take(i as int),
        decreases rest.len() - i,
    {
        let ghost before = all.deep_view();
        let c = copy_chars(&rest[i]);
        all.push(c);
        assert(all.deep_view() =~= before.push(rest.deep_view()[i as int]));
        assert(a0 + rest.deep_view().take(i + 1) =~= (a0 + rest.deep_view().take(i as int)).push(
            rest.deep_view()[i as int],
        ));
        i = i + 1;
    }
    assert(rest.deep_view().take(rest@.len() as int) =~= rest.deep_view());
    let kept = non_empty_parts(&all);
    let slash: Vec<char> = vec!['/'];
    assert(slash@ =~= seq!['/']);
    let j = join_chars(&kept, slash.as_slice());
    if j.len() > 0 && j[0] == '/' {
        string_of(j.as_slice())
    } else {
        let r = concat_chars(slash.as_slice(), j.as_slice());
        string_of(r.as_slice())
    }
}

/// Whether a template segment is a variable `{name}`.
fn is_var_chars(seg: &Vec<char>) -> (r: bool)
    ensures
        r == is_var(seg@),
{
    seg.len() >= 2 && seg[0] == '{' && seg[seg.len() - 1] == '}'
}

/// Matches the segments of a request path against a route template: `None` when the
/// template does not match, else each segment with the variable it stands in, if any.
pub fn map_path(parts: &Vec<String>, template: &str) -> (r: Option<Vec<(String, Option<String>)>>)
    ensures
        match r {
            Some(m) => template_matches(parts.deep_view(), segments(template@)) && m.deep_view()
                == mapped_parts(parts.deep_view(), segments(template@)),
            None => !template_matches(parts.deep_view(), segments(template@)),
        },
{
    let tc = chars_of(template);
    let t = segment_chars(tc.as_slice());
    let ghost ps = parts.deep_view();
    let ghost ts = t.deep_view();
    if t.len() > parts.len() {
        return None;
    }
    let mut i: usize = 0;
    while i < t.len()
        invariant
            i <= t@.len() <= parts@.len(),
            ps == parts.deep_view(),
            ts == t.deep_view(),
            ts == segments(template@),
            forall|j: int| 0 <= j < i ==> is_var(#[trigger] ts[j]) || ts[j] == ps[j],
        decreases t.len() - i,
    {
        let p = chars_of(parts[i].as_str());
        assert(ps[i as int] == p@);
        assert(ts[i as int] == t@[i as int]@);
        if !is_var_chars(&t[i]) && !chars_eq(t[i].as_slice(), p.as_slice()) {
            assert(!(is_var(ts[i as int]) || ts[i as int] == ps[i as int]));
            return None;
        }
        i = i + 1;
    }
    let mut m: Vec<(String, Option<String>)> = Vec::new();
    let mut k: usize = 0;
    while k < parts.len()
        invariant
            k <= parts@.len(),
            t@.len() <= parts@.len(),
            ps == parts.deep_view(),
            ts == t.deep_view(),
            m.deep_view() == mapped_parts(ps, ts).take(k as int),
        decreases parts.len() - k,
    {
        let ghost before = m.deep_view();
        let name = if k < t.len() && is_var_chars(&t[k]) {
            let inner = sub_chars(t[k].as_slice(), 1, t[k].len() - 1);
            Some(string_of(inner.as_slice()))
        } else {
            None
        };
        let seg = parts[k].clone();
        assert(ps[k as int] == seg@);
        assert(k < t@.len() ==> ts[k as int] == t@[k as int]@);
        let ghost entry = (seg@, name.deep_view());
        assert(entry == mapped_parts(ps, ts)[k as int]);
        m.push((seg, name));
        assert(m.deep_view() =~= before.push(entry));
        assert(m.deep_view() =~= mapped_parts(ps, ts).take(k + 1));
        k = k + 1;
    }
    assert(mapped_parts(ps, ts).take(parts@.len() as int) =~= mapped_parts(ps, ts));
    Some(m)
}

/// The routes (given in order) that match the request's path, each with the request's path
/// segments mapped to the route's variables.
pub fn match_paths(routes: &Vec<String>, request: &WebmachineRequest) -> (r: Vec<
    (String, Vec<(String, Option<String>)>),
>)
    ensures
        r.deep_view() == route_matches(routes.deep_view(), segments(request.request_path@)),
{
    let parts = sanitise_path(request.request_path.as_str());
    let mut r: Vec<(String, Vec<(String, Option<String>)>)> = Vec::new();
    let mut i: usize = 0;
    while i < routes.len()
        invariant
            i <= routes@.len(),
            parts.deep_view() == segments(request.request_path@),
            r.deep_view() == route_matches(routes.deep_view().take(i as int), parts.deep_view()),
        decreases routes.len() - i,
    {
        let ghost before = r.deep_view();
        assert(routes.deep_view().take(i + 1).drop_last() =~= routes.deep_view().take(i as int));
        assert(routes.deep_view()[i as int] == routes@[i as int]@);
        match map_path(&parts, routes[i].as_str()) {
            Some(m) => {
                let route = routes[i].clone();
                let ghost md = m.deep_view();
                r.push((route, m));
                assert(r.deep_view() =~= before.push((routes@[i as int]@, md)));
            },
            None => {},
        }
        i = i + 1;
    }
    assert(routes.deep_view().take(routes@.len() as int) =~= routes.deep_view());
    r
}

/// The index of the match with the longest route, the first of equally long ones; `None`
/// when there is no match.
pub fn longest_match<T>(matches: &Vec<(String, T)>) -> (r: Option<usize>)
    ensures
        match r {
            Some(i) => is_longest_match(
                Seq::new(matches@.len(), |j: int| (matches@[j].0@, ())),
                i as int,
            ),
            None => matches@.len() == 0,
        },
{
    let ghost ms = Seq::new(matches@.len(), |j: int| (matches@[j].0@, ()));
    if matches.len() == 0 {
        return None;
    }
    let mut best: usize = 0;
    let mut best_len: usize = chars_of(matches[0].0.as_str()).len();
    let mut i: usize = 1;
    while i < matches.len()
        invariant
            1 <= i <= matches@.len(),
            best < i,
            ms == Seq::new(matches@.len(), |j: int| (matches@[j].0@, ())),
            best_len == ms[best as int].0.len(),
            forall|j: int| 0 <= j < i ==> (#[trigger] ms[j]).0.len() <= ms[best as int].0.len(),
            forall|j: int| 0 <= j < best ==> (#[trigger] ms[j]).0.len() < ms[best as int].0.len(),
        decreases matches.len() - i,
    {
        let n = chars_of(matches[i].0.as_str()).len();
        if n > best_len {
            best = i;
            best_len = n;
        }
        i = i + 1;
    }
    Some(best)
}

/// Records in the request the route it was dispatched to: the route becomes the base path,
/// the variables of the route get the segments they stand for, and the segments below the
/// route become the sub path.
pub fn update_paths_for_resource(
    request: &mut WebmachineRequest,
    base_path: &str,
    mapped_parts: &Vec<(String, Option<String>)>,
)
    ensures
        final(request).base_path@ == base_path@,
        final(request).path_vars.deep_view() == vars_of(mapped_parts.deep_view()),
        keys_unique(final(request).path_vars.deep_view()),
        final(request).sub_path.deep_view() == sub_path_of(base_path@, mapped_parts.deep_view()),
        final(request).request_path == old(request).request_path,
        final(request).method == old(request).method,
        final(request).headers == old(request).headers,
        final(request).body == old(request).body,
        final(request).query == old(request).query,
{
    let ghost mp = mapped_parts.deep_view();
    proof {
        lemma_vars_unique(mp);
    }
    request.base_path = crate::text::string_from(base_path);
    let mut vars: Vec<(String, String)> = Vec::new();
    let mut i: usize = 0;
    while i < mapped_parts.len()
        invariant
            i <= mapped_parts@.len(),
            mp == mapped_parts.deep_view(),
            vars.deep_view() == vars_of(mp.take(i as int)),
        decreases mapped_parts.len() - i,
    {
        assert(mp.take(i + 1).drop_last() =~= mp.take(i as int));
        assert(mp[i as int] == (mapped_parts@[i as int].0@, mapped_parts@[i as int].1.deep_view()));
        match &mapped_parts[i].1 {
            Some(name) => {
                put_pair(&mut vars, name.as_str(), mapped_parts[i].0.as_str());
            },
            None => {},
        }
        i = i + 1;
    }
    assert(mp.take(mp.len() as int) =~= mp);
    request.path_vars = vars;
    let base = sanitise_path(base_path);
    if mapped_parts.len() > base.len() {
        let mut rest: Vec<Vec<char>> = Vec::new();
        let ghost firsts = Seq::new(mp.len(), |j: int| mp[j].0);
        let mut k: usize = base.len();
        while k < mapped_parts.len()
            invariant
                base@.len() <= k <= mapped_parts@.len(),
                mp == mapped_parts.deep_view(),
                firsts == Seq::new(mp.len(), |j: int| mp[j].0),
                rest.deep_view() == firsts.subrange(base@.len() as int, k as int),
            decreases mapped_parts.len() - k,
        {
            let ghost before = rest.deep_view();
            let c = chars_of(mapped_parts[k].0.as_str());
            assert(firsts[k as int] == c@);
            rest.push(c);
            assert(rest.deep_view() =~= before.push(c@));
            assert(rest.deep_view() =~= firsts.subrange(base@.len() as int, k + 1));
            k = k + 1;
        }
        assert(firsts.subrange(base@.len() as int, mp.len() as int) =~= firsts.skip(base@.len() as int));
        let slash: Vec<char> = vec!['/'];
        assert(slash@ =~= seq!['/']);
        let joined = join_chars(&rest, slash.as_slice());
        request.sub_path = Some(string_of(joined.as_slice()));
    } else {
        request.sub_path = None;
    }
}


/// Routes the request: when some route matches its path, the request records the longest
/// matching route (the first among equally long ones) with its variables and sub path, and
/// that route is returned; when none matches, the response status is 404.
pub fn dispatch_route(routes: &Vec<String>, ctx: &mut WebmachineContext) -> (r: Option<String>)
    ensures
        ({
            let ms = route_matches(routes.deep_view(), segments(old(ctx).request.request_path@));
            match r {
                Some(route) => exists|i: int|
                    #![trigger ms[i]]
                    is_longest_match(ms, i) && ms[i].0 == route@ && final(ctx).request.base_path@ == route@
                        && final(ctx).request.path_vars.deep_view() == vars_of(ms[i].1)
                        && final(ctx).request.sub_path.deep_view() == sub_path_of(route@, ms[i].1)
                        && final(ctx).response == old(ctx).response,
                None => ms.len() == 0 && final(ctx).response.status == 404 && final(ctx).request == old(ctx).request,
            }
        }),
        final(ctx).request.request_path == old(ctx).request.request_path,
        final(ctx).request.method == old(ctx).request.method,
        final(ctx).request.headers == old(ctx).request.headers,
        final(ctx).request.body == old(ctx).request.body,
        final(ctx).request.query == old(ctx).request.query,
{
    let matches = match_paths(routes, &ctx.request);
    let ghost ms = matches.deep_view();
    match longest_match(&matches) {
        Some(i) => {
            let ghost unit = Seq::new(matches@.len(), |j: int| (matches@[j].0@, ()));
            assert forall|j: int| 0 <= j < ms.len() implies (#[trigger] ms[j]).0 == unit[j].0 by {
                assert(ms[j] == (matches@[j].0@, matches@[j].1.deep_view()));
            }
            assert(ms[i as int] == (matches@[i as int].0@, matches@[i as int].1.deep_view()));
            assert(is_longest_match(ms, i as int)) by {
                assert forall|j: int| 0 <= j < ms.len() implies (#[trigger] ms[j]).0.len() <= ms[i as int].0.len() by {
                    assert(unit[j].0.len() <= unit[i as int].0.len());
                }
                assert forall|j: int| 0 <= j < i implies (#[trigger] ms[j]).0.len() < ms[i as int].0.len() by {
                    assert(unit[j].0.len() < unit[i as int].0.len());
                }
            }
            let route = matches[i].0.clone();
            update_paths_for_resource(&mut ctx.request, matches[i].0.as_str(), &matches[i].1);
            Some(route)
        },
        None => {
            ctx.response.status = 404;
            None
        },
    }
}

} // verus!

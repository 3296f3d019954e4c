//! The HTTP admin surface's request dispatch: a request path is split into
//! its non-blank segments and looked up in a routing table; an unknown path
//! answers 404 with body `Invalid URL`.  The server and the handlers stand
//! outside the library; the path handling is verified here.

use vstd::prelude::*;
use crate::config::tokens::clampi;
use crate::config::tokens::find_char;
use crate::strutil::spec_trim;

verus! {

/// The value sent to shut the HTTP api down.
pub struct HttpApiShutdownSignal {}

/// A path split at every slash, blank segments dropped.
pub open spec fn spec_split_path(s: Seq<char>) -> Seq<Seq<char>>
    decreases s.len(),
{
    match find_char(s, '/') {
        None => if spec_trim(s).len() == 0 {
            Seq::empty()
        } else {
            seq![s]
        },
        Some(i) => {
            let head = s.take(i);
            let rest = spec_split_path(s.skip(clampi(i + 1, 1, s.len() as int)));
            if spec_trim(head).len() == 0 {
                rest
            } else {
                seq![head] + rest
            }
        },
    }
}

/// Split a request path into its segments: the parts between slashes whose
/// text is not blank.
pub fn split_request_path(path: &str) -> (r: Vec<String>)
    ensures
        r@.map_values(|p: String| p@) == spec_split_path(path@),
{
    let chars = crate::strutil::chars_of(path);
    let n = chars.len();
    let mut parts: Vec<String> = Vec::new();
    let mut pos: usize = 0;
    let mut finished = false;
    proof {
        assert(chars@.skip(0) =~= chars@);
        assert(parts@.map_values(|p: String| p@) =~= Seq::<Seq<char>>::empty());
    }
    while !finished
        invariant
            pos <= n,
            n == chars@.len(),
            chars@ == path@,
            !finished ==> spec_split_path(path@) =~= parts@.map_values(|p: String| p@)
                + spec_split_path(chars@.skip(pos as int)),
            finished ==> spec_split_path(path@) =~= parts@.map_values(|p: String| p@),
        decreases n - pos + (if finished { 0int } else { 1int }),
    {
        let ghost s = chars@.skip(pos as int);
        let ghost done = parts@.map_values(|p: String| p@);
        let piece_end: usize;
        let next_pos: usize;
        let is_last: bool;
        match crate::config::tokens::scan_for(&chars, pos, '/') {
            Some(i) => {
                piece_end = i;
                next_pos = i + 1;
                is_last = false;
            },
            None => {
                piece_end = n;
                next_pos = n;
                is_last = true;
            },
        }
        let raw = crate::config::tokens::substring_of(&chars, pos, piece_end);
        let rawv = crate::strutil::chars_of(raw.as_str());
        let trimmed = crate::strutil::trim_chars(&rawv);
        proof {
            if is_last {
                assert(find_char(s, '/') is None);
                assert(s =~= chars@.subrange(pos as int, n as int));
                assert(rawv@ == s);
            } else {
                assert(find_char(s, '/') == Some(piece_end - pos));
                assert(clampi(piece_end - pos + 1, 1, s.len() as int) == piece_end - pos + 1);
                assert(s.take(piece_end - pos) =~= chars@.subrange(pos as int, piece_end as int));
                assert(s.skip(piece_end - pos + 1) =~= chars@.skip(next_pos as int));
                assert(rawv@ == s.take(piece_end - pos));
            }
        }
        if trimmed.len() > 0 {
            parts.push(raw);
            proof {
                assert(parts@.map_values(|p: String| p@) =~= done.push(raw@));
            }
        }
        if is_last {
            finished = true;
        } else {
            pos = next_pos;
        }
        proof {
            if is_last {
                if trimmed@.len() == 0 {
                    assert(spec_split_path(s) =~= Seq::<Seq<char>>::empty());
                } else {
                    assert(spec_split_path(s) =~= seq![s]);
                    assert(parts@.map_values(|p: String| p@) =~= done.push(s));
                }
                assert(spec_split_path(path@) =~= parts@.map_values(|p: String| p@));
            } else {
                if trimmed@.len() == 0 {
                    assert(spec_split_path(s) == spec_split_path(chars@.skip(pos as int)));
                } else {
                    assert(spec_split_path(s) =~= seq![rawv@] + spec_split_path(
                        chars@.skip(pos as int),
                    ));
                    assert(done.push(rawv@) + spec_split_path(chars@.skip(pos as int))
                        =~= done + (seq![rawv@] + spec_split_path(chars@.skip(pos as int))));
                }
            }
        }
    }
    parts
}


/// One part of a route's path: an exact segment, or a named parameter that
/// matches any segment.
pub enum RoutePart {
    Exact { value: String },
    Parameter { name: String },
}

/// One route: the method it answers and the path shape it matches.
pub struct RouteSpec {
    pub method: String,
    pub parts: Vec<RoutePart>,
}

pub open spec fn part_matches(p: RoutePart, seg: Seq<char>) -> bool {
    match p {
        RoutePart::Exact { value } => value@ == seg,
        RoutePart::Parameter { .. } => true,
    }
}

/// Whether a route answers a request: the method is the same and the
/// segments match the route's parts position by position.
pub open spec fn route_matches(route: RouteSpec, method: Seq<char>, segs: Seq<Seq<char>>) -> bool {
    &&& route.method@ == method
    &&& route.parts@.len() == segs.len()
    &&& forall|i: int| 0 <= i < segs.len() ==> part_matches(#[trigger] route.parts@[i], segs[i])
}

/// The first route that answers the request, if any.
pub fn match_route(routes: &Vec<RouteSpec>, method: &String, parts: &Vec<String>) -> (r: Option<
    usize,
>)
    ensures
        ({
            let segs = parts@.map_values(|p: String| p@);
            match r {
                Some(i) => i < routes@.len() && route_matches(routes@[i as int], method@, segs)
                    && forall|j: int|
                    0 <= j < i ==> !route_matches(#[trigger] routes@[j], method@, segs),
                None => forall|j: int|
                    0 <= j < routes@.len() ==> !route_matches(#[trigger] routes@[j], method@, segs),
            }
        }),
{
    let ghost segs = parts@.map_values(|p: String| p@);
    let rn = routes.len();
    let mut i: usize = 0;
    while i < rn
        invariant
            i <= rn,
            rn == routes@.len(),
            segs == parts@.map_values(|p: String| p@),
            forall|j: int| 0 <= j < i ==> !route_matches(#[trigger] routes@[j], method@, segs),
        decreases rn - i,
    {
        let route = &routes[i];
        if route_answers(route, method, parts) {
            return Some(i);
        }
        i += 1;
    }
    None
}

/// Whether one route answers the request.
fn route_answers(route: &RouteSpec, method: &String, parts: &Vec<String>) -> (r: bool)
    ensures
        r == route_matches(*route, method@, parts@.map_values(|p: String| p@)),
{
    let ghost segs = parts@.map_values(|p: String| p@);
    if !(route.method == *method) {
        return false;
    }
    let pn = route.parts.len();
    if pn != parts.len() {
        proof {
            assert(segs.len() == parts@.len());
        }
        return false;
    }
    let mut k: usize = 0;
    while k < pn
        invariant
            k <= pn,
            pn == route.parts@.len(),
            pn == parts@.len(),
            segs == parts@.map_values(|p: String| p@),
            route.method@ == method@,
            forall|j: int| 0 <= j < k ==> part_matches(#[trigger] route.parts@[j], segs[j]),
        decreases pn - k,
    {
        match &route.parts[k] {
            RoutePart::Exact { value } => {
                if !(*value == parts[k]) {
                    proof {
                        assert(!part_matches(route.parts@[k as int], segs[k as int]));
                    }
                    return false;
                }
            },
            RoutePart::Parameter { .. } => {},
        }
        k += 1;
    }
    true
}

/// The parameters a matched route extracts: each parameter part's name
/// paired with the segment standing at its position, later duplicates
/// winning.
pub open spec fn spec_route_parameters(
    rparts: Seq<RoutePart>,
    segs: Seq<Seq<char>>,
) -> Map<Seq<char>, Seq<char>>
    decreases rparts.len(),
{
    if rparts.len() == 0 || segs.len() == 0 {
        Map::empty()
    } else {
        let rest = spec_route_parameters(rparts.drop_last(), segs.drop_last());
        match rparts.last() {
            RoutePart::Parameter { name } => rest.insert(name@, segs.last()),
            RoutePart::Exact { .. } => rest,
        }
    }
}

/// Extract a matched route's path parameters from the request's segments.
pub fn route_parameters(route: &RouteSpec, parts: &Vec<String>) -> (r: crate::collections::StrMap<
    String,
>)
    requires
        route.parts@.len() == parts@.len(),
    ensures
        r.wf(),
        crate::media::smap_view(r@) == spec_route_parameters(
            route.parts@,
            parts@.map_values(|p: String| p@),
        ),
{
    let ghost segs = parts@.map_values(|p: String| p@);
    let mut m: crate::collections::StrMap<String> = crate::collections::StrMap::new();
    let pn = route.parts.len();
    let mut k: usize = 0;
    proof {
        assert(route.parts@.take(0) =~= Seq::<RoutePart>::empty());
        assert(crate::media::smap_view(m@) =~= spec_route_parameters(
            route.parts@.take(0),
            segs.take(0),
        ));
    }
    while k < pn
        invariant
            k <= pn,
            m.wf(),
            pn == route.parts@.len(),
            pn == parts@.len(),
            segs == parts@.map_values(|p: String| p@),
            crate::media::smap_view(m@) =~= spec_route_parameters(
                route.parts@.take(k as int),
                segs.take(k as int),
            ),
        decreases pn - k,
    {
        let ghost pre = m@;
        proof {
            assert(route.parts@.take(k + 1).drop_last() =~= route.parts@.take(k as int));
            assert(segs.take(k + 1).drop_last() =~= segs.take(k as int));
            assert(route.parts@.take(k + 1).last() == route.parts@[k as int]);
            assert(segs.take(k + 1).last() == segs[k as int]);
        }
        match &route.parts[k] {
            RoutePart::Parameter { name } => {
                m.insert(name.clone(), parts[k].clone());
                proof {
                    assert(crate::media::smap_view(m@) =~= crate::media::smap_view(pre).insert(
                        route.parts@[k as int]->Parameter_name@,
                        segs[k as int],
                    ));
                }
            },
            RoutePart::Exact { .. } => {},
        }
        k += 1;
    }
    proof {
        assert(route.parts@.take(pn as int) =~= route.parts@);
        assert(segs.take(pn as int) =~= segs);
    }
    m
}

} // verus!

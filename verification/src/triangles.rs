//! Telling whether two geometries draw the same triangles.
//!
//! Two geometries hold the same triangles if the triangles of the one can be
//! matched with those of the other, each with one that has equal vertices at
//! its three corners. To find out, a match is made triangle by triangle: each
//! triangle takes the first triangle of the other geometry that equals it
//! and that no earlier triangle took. Equal triangles can stand in for each
//! other, so this finds a match whenever there is one.

use vstd::prelude::*;
use crate::mesh::draws_same_triangles;
use crate::mesh_optimizer::{indices_in_range, is_permutation};
use crate::meshlet::VertexLayout;

verus! {

/// Two vertices are equal: position, normal and texture coordinate are.
pub fn same_vertex(a: &VertexLayout, b: &VertexLayout) -> (r: bool)
    ensures
        r == (*a == *b),
{
    let r = a.position[0] == b.position[0] && a.position[1] == b.position[1] && a.position[2]
        == b.position[2] && a.normal[0] == b.normal[0] && a.normal[1] == b.normal[1]
        && a.normal[2] == b.normal[2] && a.uv[0] == b.uv[0] && a.uv[1] == b.uv[1];
    proof {
        if r {
            assert(a.position =~= b.position);
            assert(a.normal =~= b.normal);
            assert(a.uv =~= b.uv);
        }
    }
    r
}

/// Triangle `t` of the geometry `(new_vertices, new_indices)` has, corner by
/// corner, the vertices of triangle `s` of `(vertices, indices)`.
pub open spec fn same_triangle(
    vertices: Seq<VertexLayout>,
    indices: Seq<u32>,
    s: int,
    new_vertices: Seq<VertexLayout>,
    new_indices: Seq<u32>,
    t: int,
) -> bool {
    &&& new_vertices[new_indices[3 * t] as int] == vertices[indices[3 * s] as int]
    &&& new_vertices[new_indices[3 * t + 1] as int] == vertices[indices[3 * s + 1] as int]
    &&& new_vertices[new_indices[3 * t + 2] as int] == vertices[indices[3 * s + 2] as int]
}

/// The first triangle of `(vertices, indices)`, from triangle `from` on, that
/// is not among `taken` and equals triangle `t` of the other geometry; the
/// number of triangles if there is none.
pub open spec fn first_match(
    vertices: Seq<VertexLayout>,
    indices: Seq<u32>,
    taken: Seq<int>,
    new_vertices: Seq<VertexLayout>,
    new_indices: Seq<u32>,
    t: int,
    from: int,
) -> int
    decreases indices.len() / 3 - from,
{
    if from < 0 || from >= indices.len() / 3 {
        (indices.len() / 3) as int
    } else if !taken.contains(from) && same_triangle(
        vertices,
        indices,
        from,
        new_vertices,
        new_indices,
        t,
    ) {
        from
    } else {
        first_match(vertices, indices, taken, new_vertices, new_indices, t, from + 1)
    }
}

/// The match of the first `n` triangles of `(new_vertices, new_indices)`: for
/// each the triangle of `(vertices, indices)` that it takes. There is none if
/// one of them finds no triangle to take.
pub open spec fn matched(
    vertices: Seq<VertexLayout>,
    indices: Seq<u32>,
    new_vertices: Seq<VertexLayout>,
    new_indices: Seq<u32>,
    n: nat,
) -> Option<Seq<int>>
    decreases n,
{
    if n == 0 {
        Some(Seq::empty())
    } else {
        match matched(vertices, indices, new_vertices, new_indices, (n - 1) as nat) {
            None => None,
            Some(taken) => {
                let s = first_match(vertices, indices, taken, new_vertices, new_indices, n - 1, 0);
                if s < indices.len() / 3 {
                    Some(taken.push(s))
                } else {
                    None
                }
            },
        }
    }
}

/// The two geometries hold the same triangles: the one draws the triangles of
/// the other, each once, in some order.
pub open spec fn holds_same_triangles(
    vertices: Seq<VertexLayout>,
    indices: Seq<u32>,
    new_vertices: Seq<VertexLayout>,
    new_indices: Seq<u32>,
) -> bool {
    exists|order: Seq<int>|
        draws_same_triangles(vertices, indices, new_vertices, new_indices, order)
}

/// Every triangle of the one geometry finds a triangle of the other to take.
pub open spec fn has_match(
    vertices: Seq<VertexLayout>,
    indices: Seq<u32>,
    new_vertices: Seq<VertexLayout>,
    new_indices: Seq<u32>,
) -> bool {
    &&& new_indices.len() == indices.len()
    &&& matched(vertices, indices, new_vertices, new_indices, indices.len() / 3) is Some
}

/// The search does not pass over a triangle that is free and fits.
pub proof fn lemma_first_match_finds(
    vertices: Seq<VertexLayout>,
    indices: Seq<u32>,
    taken: Seq<int>,
    new_vertices: Seq<VertexLayout>,
    new_indices: Seq<u32>,
    t: int,
    from: int,
    candidate: int,
)
    requires
        0 <= from <= candidate < indices.len() / 3,
        !taken.contains(candidate),
        same_triangle(vertices, indices, candidate, new_vertices, new_indices, t),
    ensures
        first_match(vertices, indices, taken, new_vertices, new_indices, t, from) <= candidate,
    decreases candidate - from,
{
    if from < candidate && !(!taken.contains(from) && same_triangle(
        vertices,
        indices,
        from,
        new_vertices,
        new_indices,
        t,
    )) {
        lemma_first_match_finds(
            vertices,
            indices,
            taken,
            new_vertices,
            new_indices,
            t,
            from + 1,
            candidate,
        );
    }
}

/// The order in which triangle `t` takes triangle `s` instead of the one that
/// `order` gives it, and the triangle that had `s` takes that one.
pub open spec fn exchanged(order: Seq<int>, t: int, s: int) -> Seq<int> {
    Seq::new(
        order.len(),
        |u: int|
            if u == t {
                s
            } else if order[u] == s {
                order[t]
            } else {
                order[u]
            },
    )
}

/// If the geometries draw the same triangles in some order, and the match of
/// the first `t` triangles follows that order, the match goes on to the end.
proof fn lemma_match_goes_on(
    vertices: Seq<VertexLayout>,
    indices: Seq<u32>,
    new_vertices: Seq<VertexLayout>,
    new_indices: Seq<u32>,
    order: Seq<int>,
    t: nat,
)
    requires
        draws_same_triangles(vertices, indices, new_vertices, new_indices, order),
        t <= order.len(),
        matched(vertices, indices, new_vertices, new_indices, t) == Some(order.take(t as int)),
    ensures
        matched(vertices, indices, new_vertices, new_indices, order.len()) is Some,
    decreases order.len() - t,
{
    let n = order.len() as int;
    if t < n {
        let taken = order.take(t as int);
        let c = order[t as int];
        assert(0 <= c < n);
        if taken.contains(c) {
            let u = choose|u: int| 0 <= u < taken.len() && taken[u] == c;
            assert(order[u] == order[t as int]);
        }
        lemma_first_match_finds(vertices, indices, taken, new_vertices, new_indices, t as int, 0, c);
        lemma_first_match(vertices, indices, taken, new_vertices, new_indices, t as int, 0);
        let s = first_match(vertices, indices, taken, new_vertices, new_indices, t as int, 0);
        let next = exchanged(order, t as int, s);
        assert forall|u: int| 0 <= u < n implies 0 <= #[trigger] next[u] < n by {
            assert(0 <= order[u] < n);
        }
        assert forall|a: int, b: int|
            0 <= a < n && 0 <= b < n && #[trigger] next[a] == #[trigger] next[b] implies a == b by {
            assert(0 <= order[a] < n && 0 <= order[b] < n);
            if a != b {
                if a == t {
                    if order[b] == s {
                        assert(order[b] == order[t as int]);
                    }
                } else if b == t {
                    if order[a] == s {
                        assert(order[a] == order[t as int]);
                    }
                } else if order[a] == s {
                    if order[b] != s {
                        assert(order[b] == order[t as int]);
                    } else {
                        assert(order[a] == order[b]);
                    }
                } else if order[b] == s {
                    assert(order[a] == order[t as int]);
                } else {
                    assert(order[a] == order[b]);
                }
            }
        }
        assert forall|u: int| 0 <= u < n implies {
            &&& new_vertices[new_indices[3 * u] as int] == vertices[indices[3 * #[trigger] next[u]] as int]
            &&& new_vertices[new_indices[3 * u + 1] as int] == vertices[indices[3 * next[u] + 1] as int]
            &&& new_vertices[new_indices[3 * u + 2] as int] == vertices[indices[3 * next[u] + 2] as int]
        } by {
            assert(0 <= order[u] < n);
            assert(0 <= order[t as int] < n);
        }
        assert(draws_same_triangles(vertices, indices, new_vertices, new_indices, next));
        assert(next.take(t as int + 1) =~= taken.push(s)) by {
            assert forall|u: int| 0 <= u < t implies next[u] == order[u] by {
                if order[u] == s {
                    assert(taken[u] == s);
                    assert(taken.contains(s));
                }
            }
        }
        lemma_match_goes_on(vertices, indices, new_vertices, new_indices, next, t + 1);
    } else {
        assert(order.take(t as int) =~= order);
    }
}

/// Geometries that draw the same triangles have a match.
pub proof fn lemma_same_triangles_matched(
    vertices: Seq<VertexLayout>,
    indices: Seq<u32>,
    new_vertices: Seq<VertexLayout>,
    new_indices: Seq<u32>,
)
    requires
        holds_same_triangles(vertices, indices, new_vertices, new_indices),
    ensures
        has_match(vertices, indices, new_vertices, new_indices),
{
    let order = choose|order: Seq<int>|
        draws_same_triangles(vertices, indices, new_vertices, new_indices, order);
    assert(order.take(0) =~= Seq::<int>::empty());
    lemma_match_goes_on(vertices, indices, new_vertices, new_indices, order, 0);
}

/// What the search for a triangle finds lies where it searched, is not taken
/// and equals the triangle that searched.
pub proof fn lemma_first_match(
    vertices: Seq<VertexLayout>,
    indices: Seq<u32>,
    taken: Seq<int>,
    new_vertices: Seq<VertexLayout>,
    new_indices: Seq<u32>,
    t: int,
    from: int,
)
    requires
        0 <= from <= indices.len() / 3,
    ensures
        ({
            let s = first_match(vertices, indices, taken, new_vertices, new_indices, t, from);
            &&& from <= s <= indices.len() / 3
            &&& s < indices.len() / 3 ==> !taken.contains(s) && same_triangle(
                vertices,
                indices,
                s,
                new_vertices,
                new_indices,
                t,
            )
        }),
    decreases indices.len() / 3 - from,
{
    if from < indices.len() / 3 && !(!taken.contains(from) && same_triangle(
        vertices,
        indices,
        from,
        new_vertices,
        new_indices,
        t,
    )) {
        lemma_first_match(vertices, indices, taken, new_vertices, new_indices, t, from + 1);
    }
}

/// The search finds the same whether or not it looks at triangles that are
/// taken.
pub proof fn lemma_first_match_skips(
    vertices: Seq<VertexLayout>,
    indices: Seq<u32>,
    taken: Seq<int>,
    new_vertices: Seq<VertexLayout>,
    new_indices: Seq<u32>,
    t: int,
    from: int,
    low: int,
)
    requires
        0 <= from <= low <= indices.len() / 3,
        forall|x: int| from <= x < low ==> taken.contains(x),
    ensures
        first_match(vertices, indices, taken, new_vertices, new_indices, t, from) == first_match(
            vertices,
            indices,
            taken,
            new_vertices,
            new_indices,
            t,
            low,
        ),
    decreases low - from,
{
    if from < low {
        assert(taken.contains(from));
        lemma_first_match_skips(
            vertices,
            indices,
            taken,
            new_vertices,
            new_indices,
            t,
            from + 1,
            low,
        );
    }
}

/// A match gives every triangle a triangle of its own that equals it.
pub proof fn lemma_matched(
    vertices: Seq<VertexLayout>,
    indices: Seq<u32>,
    new_vertices: Seq<VertexLayout>,
    new_indices: Seq<u32>,
    n: nat,
)
    requires
        matched(vertices, indices, new_vertices, new_indices, n) is Some,
    ensures
        ({
            let taken = matched(vertices, indices, new_vertices, new_indices, n)->0;
            &&& taken.len() == n
            &&& forall|t: int|
                0 <= t < n ==> 0 <= #[trigger] taken[t] < indices.len() / 3 && same_triangle(
                    vertices,
                    indices,
                    taken[t],
                    new_vertices,
                    new_indices,
                    t,
                )
            &&& forall|a: int, b: int|
                0 <= a < n && 0 <= b < n && #[trigger] taken[a] == #[trigger] taken[b] ==> a == b
        }),
    decreases n,
{
    if n > 0 {
        lemma_matched(vertices, indices, new_vertices, new_indices, (n - 1) as nat);
        let before = matched(vertices, indices, new_vertices, new_indices, (n - 1) as nat)->0;
        lemma_first_match(vertices, indices, before, new_vertices, new_indices, n - 1, 0);
        let s = first_match(vertices, indices, before, new_vertices, new_indices, n - 1, 0);
        let taken = before.push(s);
        assert forall|a: int, b: int|
            0 <= a < n && 0 <= b < n && #[trigger] taken[a] == #[trigger] taken[b] implies a == b by {
            if a < n - 1 && b == n - 1 {
                assert(before[a] == s);
                assert(before.contains(s));
            }
            if b < n - 1 && a == n - 1 {
                assert(before[b] == s);
                assert(before.contains(s));
            }
        }
    }
}

/// Once a triangle has found none to take, there is no match.
pub proof fn lemma_no_match(
    vertices: Seq<VertexLayout>,
    indices: Seq<u32>,
    new_vertices: Seq<VertexLayout>,
    new_indices: Seq<u32>,
    n: nat,
    m: nat,
)
    requires
        n <= m,
        matched(vertices, indices, new_vertices, new_indices, n) is None,
    ensures
        matched(vertices, indices, new_vertices, new_indices, m) is None,
    decreases m - n,
{
    if n < m {
        lemma_no_match(vertices, indices, new_vertices, new_indices, n, (m - 1) as nat);
    }
}

/// Geometries with a match draw the same triangles: the match is the order
/// in which the one draws the triangles of the other.
pub proof fn lemma_same_triangles_drawn(
    vertices: Seq<VertexLayout>,
    indices: Seq<u32>,
    new_vertices: Seq<VertexLayout>,
    new_indices: Seq<u32>,
)
    requires
        has_match(vertices, indices, new_vertices, new_indices),
    ensures
        draws_same_triangles(
            vertices,
            indices,
            new_vertices,
            new_indices,
            matched(vertices, indices, new_vertices, new_indices, indices.len() / 3)->0,
        ),
        holds_same_triangles(vertices, indices, new_vertices, new_indices),
{
    lemma_matched(vertices, indices, new_vertices, new_indices, indices.len() / 3);
    let order = matched(vertices, indices, new_vertices, new_indices, indices.len() / 3)->0;
    assert(is_permutation(order));
    assert(draws_same_triangles(vertices, indices, new_vertices, new_indices, order));
}

/// Drawing the same triangles carries over: if a second geometry draws the
/// triangles of a first and a third those of the second, the third draws the
/// triangles of the first.
pub proof fn lemma_draws_same_composes(
    vertices: Seq<VertexLayout>,
    indices: Seq<u32>,
    mid_vertices: Seq<VertexLayout>,
    mid_indices: Seq<u32>,
    first: Seq<int>,
    new_vertices: Seq<VertexLayout>,
    new_indices: Seq<u32>,
    second: Seq<int>,
)
    requires
        draws_same_triangles(vertices, indices, mid_vertices, mid_indices, first),
        draws_same_triangles(mid_vertices, mid_indices, new_vertices, new_indices, second),
    ensures
        draws_same_triangles(
            vertices,
            indices,
            new_vertices,
            new_indices,
            Seq::new(second.len(), |t: int| first[second[t]]),
        ),
{
    let order = Seq::new(second.len(), |t: int| first[second[t]]);
    assert forall|t: int| 0 <= t < order.len() implies 0 <= #[trigger] order[t] < order.len() by {
        assert(0 <= second[t] < second.len());
        assert(0 <= first[second[t]] < first.len());
    }
    assert forall|s: int, t: int|
        0 <= s < order.len() && 0 <= t < order.len() && #[trigger] order[s] == #[trigger] order[t] implies s
        == t by {
        assert(0 <= second[s] < second.len());
        assert(0 <= second[t] < second.len());
        assert(first[second[s]] == first[second[t]]);
        assert(second[s] == second[t]);
    }
    assert forall|t: int| 0 <= t < order.len() implies {
        &&& new_vertices[new_indices[3 * t] as int] == vertices[indices[3 * #[trigger] order[t]] as int]
        &&& new_vertices[new_indices[3 * t + 1] as int] == vertices[indices[3 * order[t] + 1] as int]
        &&& new_vertices[new_indices[3 * t + 2] as int] == vertices[indices[3 * order[t] + 2] as int]
    } by {
        let u = second[t];
        assert(0 <= u < second.len());
        assert(order[t] == first[u]);
    }
}

fn triangle_matches(
    vertices: &Vec<VertexLayout>,
    indices: &Vec<u32>,
    s: usize,
    new_vertices: &Vec<VertexLayout>,
    new_indices: &Vec<u32>,
    t: usize,
) -> (r: bool)
    requires
        indices_in_range(indices@, vertices@.len() as int),
        indices_in_range(new_indices@, new_vertices@.len() as int),
        3 * s + 2 < indices@.len(),
        3 * t + 2 < new_indices@.len(),
    ensures
        r == same_triangle(vertices@, indices@, s as int, new_vertices@, new_indices@, t as int),
{
    let limit: usize = indices.len();
    let new_limit: usize = new_indices.len();
    same_vertex(&new_vertices[new_indices[3 * t] as usize], &vertices[indices[3 * s] as usize])
        && same_vertex(
        &new_vertices[new_indices[3 * t + 1] as usize],
        &vertices[indices[3 * s + 1] as usize],
    ) && same_vertex(
        &new_vertices[new_indices[3 * t + 2] as usize],
        &vertices[indices[3 * s + 2] as usize],
    )
}

fn find_match(
    vertices: &Vec<VertexLayout>,
    indices: &Vec<u32>,
    used: &Vec<bool>,
    low: usize,
    Ghost(taken): Ghost<Seq<int>>,
    new_vertices: &Vec<VertexLayout>,
    new_indices: &Vec<u32>,
    t: usize,
) -> (s: usize)
    requires
        indices_in_range(indices@, vertices@.len() as int),
        indices_in_range(new_indices@, new_vertices@.len() as int),
        new_indices@.len() == indices@.len(),
        t < indices@.len() / 3,
        used@.len() == indices@.len() / 3,
        low <= used@.len(),
        forall|x: int| 0 <= x < used@.len() ==> (used@[x] <==> taken.contains(x)),
        forall|x: int| 0 <= x < low ==> used@[x],
    ensures
        s == first_match(vertices@, indices@, taken, new_vertices@, new_indices@, t as int, 0),
        low <= s <= indices@.len() / 3,
{
    let count: usize = indices.len() / 3;
    let mut s: usize = low;
    proof {
        lemma_first_match_skips(
            vertices@,
            indices@,
            taken,
            new_vertices@,
            new_indices@,
            t as int,
            0,
            low as int,
        );
    }
    while s < count
        invariant
            low <= s <= count,
            count == indices@.len() / 3,
            indices_in_range(indices@, vertices@.len() as int),
            indices_in_range(new_indices@, new_vertices@.len() as int),
            new_indices@.len() == indices@.len(),
            t < count,
            used@.len() == count,
            forall|x: int| 0 <= x < used@.len() ==> (used@[x] <==> taken.contains(x)),
            first_match(vertices@, indices@, taken, new_vertices@, new_indices@, t as int, 0)
                == first_match(
                vertices@,
                indices@,
                taken,
                new_vertices@,
                new_indices@,
                t as int,
                s as int,
            ),
        decreases count - s,
    {
        if !used[s] && triangle_matches(vertices, indices, s, new_vertices, new_indices, t) {
            return s;
        }
        s = s + 1;
    }
    s
}

/// Tells whether two geometries hold the same triangles.
pub fn check_same_triangles(
    vertices: &Vec<VertexLayout>,
    indices: &Vec<u32>,
    new_vertices: &Vec<VertexLayout>,
    new_indices: &Vec<u32>,
) -> (b: bool)
    requires
        indices_in_range(indices@, vertices@.len() as int),
        indices_in_range(new_indices@, new_vertices@.len() as int),
    ensures
        b == holds_same_triangles(vertices@, indices@, new_vertices@, new_indices@),
{
    if new_indices.len() != indices.len() {
        return false;
    }
    let count: usize = indices.len() / 3;
    let mut used: Vec<bool> = Vec::new();
    let mut k: usize = 0;
    while k < count
        invariant
            k <= count,
            used@.len() == k,
            forall|x: int| 0 <= x < k ==> !used@[x],
        decreases count - k,
    {
        used.push(false);
        k = k + 1;
    }
    let ghost mut taken: Seq<int> = Seq::empty();
    let mut low: usize = 0;
    let mut t: usize = 0;
    while t < count
        invariant
            t <= count,
            low <= count,
            forall|x: int| 0 <= x < low ==> used@[x],
            count == indices@.len() / 3,
            indices_in_range(indices@, vertices@.len() as int),
            indices_in_range(new_indices@, new_vertices@.len() as int),
            new_indices@.len() == indices@.len(),
            used@.len() == count,
            forall|x: int| 0 <= x < count ==> (used@[x] <==> taken.contains(x)),
            matched(vertices@, indices@, new_vertices@, new_indices@, t as nat) == Some(taken),
        decreases count - t,
    {
        let s = find_match(
            vertices,
            indices,
            &used,
            low,
            Ghost(taken),
            new_vertices,
            new_indices,
            t,
        );
        if s == count {
            proof {
                lemma_no_match(
                    vertices@,
                    indices@,
                    new_vertices@,
                    new_indices@,
                    (t + 1) as nat,
                    count as nat,
                );
                if holds_same_triangles(vertices@, indices@, new_vertices@, new_indices@) {
                    lemma_same_triangles_matched(vertices@, indices@, new_vertices@, new_indices@);
                }
            }
            return false;
        }
        used.set(s, true);
        proof {
            let before = taken;
            taken = taken.push(s as int);
            assert forall|x: int| 0 <= x < count implies (used@[x] <==> taken.contains(x)) by {
                if x == s {
                    assert(taken[before.len() as int] == x);
                } else {
                    if before.contains(x) {
                        let i = choose|i: int| 0 <= i < before.len() && before[i] == x;
                        assert(taken[i] == x);
                    }
                    if taken.contains(x) {
                        let i = choose|i: int| 0 <= i < taken.len() && taken[i] == x;
                        assert(before[i] == x);
                    }
                }
            }
        }
        while low < count && used[low]
            invariant
                low <= count,
                used@.len() == count,
                forall|x: int| 0 <= x < low ==> used@[x],
            decreases count - low,
        {
            low = low + 1;
        }
        t = t + 1;
    }
    proof {
        lemma_same_triangles_drawn(vertices@, indices@, new_vertices@, new_indices@);
    }
    true
}

} // verus!

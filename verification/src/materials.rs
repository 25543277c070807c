use vstd::prelude::*;

use crate::text::str_eq;
use vstd::string::StringSliceAdditionalSpecFns;

verus! {

/// Lexicographic order on byte strings: the order of `str` values.
pub open spec fn bytes_lt(a: Seq<u8>, b: Seq<u8>) -> bool
    decreases a.len(),
{
    if a.len() == 0 {
        b.len() > 0
    } else if b.len() == 0 {
        false
    } else if a[0] < b[0] {
        true
    } else if a[0] > b[0] {
        false
    } else {
        bytes_lt(a.drop_first(), b.drop_first())
    }
}

/// Equal leading bytes can be skipped.
pub proof fn lemma_bytes_lt_skip(a: Seq<u8>, b: Seq<u8>, i: int)
    requires
        0 <= i <= a.len(),
        i <= b.len(),
        forall|k: int| 0 <= k < i ==> a[k] == b[k],
    ensures
        bytes_lt(a, b) == bytes_lt(a.subrange(i, a.len() as int), b.subrange(i, b.len() as int)),
    decreases i,
{
    if i > 0 {
        assert(a.len() > 0 && b.len() > 0);
        assert(a[0] == b[0]);
        let a1 = a.drop_first();
        let b1 = b.drop_first();
        lemma_bytes_lt_skip(a1, b1, i - 1);
        assert(a1.subrange(i - 1, a1.len() as int) =~= a.subrange(i, a.len() as int));
        assert(b1.subrange(i - 1, b1.len() as int) =~= b.subrange(i, b.len() as int));
    } else {
        assert(a.subrange(0, a.len() as int) =~= a);
        assert(b.subrange(0, b.len() as int) =~= b);
    }
}

/// The order is transitive.
pub proof fn lemma_bytes_lt_transitive(a: Seq<u8>, b: Seq<u8>, c: Seq<u8>)
    requires
        bytes_lt(a, b),
        bytes_lt(b, c),
    ensures
        bytes_lt(a, c),
    decreases a.len(),
{
    if a.len() > 0 && b.len() > 0 && c.len() > 0 && a[0] == b[0] && b[0] == c[0] {
        lemma_bytes_lt_transitive(a.drop_first(), b.drop_first(), c.drop_first());
    }
}

/// Of two different byte strings, one comes first, and never both.
pub proof fn lemma_bytes_lt_total(a: Seq<u8>, b: Seq<u8>)
    ensures
        a != b ==> bytes_lt(a, b) || bytes_lt(b, a),
        !(bytes_lt(a, b) && bytes_lt(b, a)),
        !bytes_lt(a, a),
    decreases a.len(),
{
    if a.len() > 0 && b.len() > 0 {
        lemma_bytes_lt_total(a.drop_first(), b.drop_first());
        if a[0] == b[0] && a != b {
            assert(a.drop_first() != b.drop_first()) by {
                if a.drop_first() == b.drop_first() {
                    assert(a =~= seq![a[0]] + a.drop_first());
                    assert(b =~= seq![b[0]] + b.drop_first());
                }
            }
        }
    } else if a.len() == 0 && b.len() == 0 {
        assert(a =~= b);
    }
    if a.len() > 0 {
        lemma_bytes_lt_total(a.drop_first(), a.drop_first());
    }
}

/// Whether `a` comes before `b` in `str` order.
pub fn str_less(a: &str, b: &str) -> (r: bool)
    ensures
        r == bytes_lt(a.spec_bytes(), b.spec_bytes()),
{
    let x = a.as_bytes();
    let y = b.as_bytes();
    let mut i: usize = 0;
    while i < x.len() && i < y.len()
        invariant
            0 <= i <= x@.len(),
            i <= y@.len(),
            x@ == a.spec_bytes(),
            y@ == b.spec_bytes(),
            forall|k: int| 0 <= k < i ==> x@[k] == y@[k],
        decreases x@.len() - i,
    {
        if x[i] != y[i] {
            proof {
                lemma_bytes_lt_skip(x@, y@, i as int);
                let xs = x@.subrange(i as int, x@.len() as int);
                let ys = y@.subrange(i as int, y@.len() as int);
                assert(xs[0] == x@[i as int] && ys[0] == y@[i as int]);
            }
            return x[i] < y[i];
        }
        i = i + 1;
    }
    proof {
        lemma_bytes_lt_skip(x@, y@, i as int);
        let xs = x@.subrange(i as int, x@.len() as int);
        let ys = y@.subrange(i as int, y@.len() as int);
        assert(xs.len() == 0 || ys.len() == 0);
    }
    x.len() < y.len()
}

/// A material: its id and its tags.
#[derive(Debug)]
pub struct Material {
    pub id: String,
    pub tags: Vec<String>,
}

/// The bytes of a material id.
pub open spec fn id_bytes(m: Material) -> Seq<u8> {
    vstd::utf8::encode_utf8(m.id@)
}

/// The material carries the tag.
pub open spec fn has_tag(m: Material, tag: Seq<char>) -> bool {
    exists|k: int| 0 <= k < m.tags@.len() && (#[trigger] m.tags@[k])@ == tag
}

/// The material carries every required tag.
pub open spec fn has_all(m: Material, required: Seq<String>) -> bool {
    forall|k: int| 0 <= k < required.len() ==> has_tag(m, (#[trigger] required[k])@)
}

/// The material carries every required tag and the preferred one.
pub open spec fn preferred_match(m: Material, required: Seq<String>, preferred: Option<Seq<char>>) -> bool {
    has_all(m, required) && preferred is Some && has_tag(m, preferred.unwrap())
}

/// `i` is the material with the smallest id among those satisfying `p`.
pub open spec fn least_with(ms: Seq<Material>, i: int, p: spec_fn(Material) -> bool) -> bool {
    &&& 0 <= i < ms.len() && p(ms[i])
    &&& forall|j: int| 0 <= j < ms.len() && j != i && p(#[trigger] ms[j]) ==> bytes_lt(id_bytes(ms[i]), id_bytes(ms[j]))
}

/// Whether the material carries the tag.
fn carries(m: &Material, tag: &str) -> (b: bool)
    ensures
        b == has_tag(*m, tag@),
{
    let mut k: usize = 0;
    while k < m.tags.len()
        invariant
            0 <= k <= m.tags@.len(),
            forall|j: int| 0 <= j < k ==> (#[trigger] m.tags@[j])@ != tag@,
        decreases m.tags@.len() - k,
    {
        if str_eq(m.tags[k].as_str(), tag) {
            return true;
        }
        k = k + 1;
    }
    false
}

/// Whether the material carries every required tag.
fn carries_all(m: &Material, required: &Vec<String>) -> (b: bool)
    ensures
        b == has_all(*m, required@),
{
    let mut k: usize = 0;
    while k < required.len()
        invariant
            0 <= k <= required@.len(),
            forall|j: int| 0 <= j < k ==> has_tag(*m, (#[trigger] required@[j])@),
        decreases required@.len() - k,
    {
        if !carries(m, required[k].as_str()) {
            return false;
        }
        k = k + 1;
    }
    true
}

/// The material to build with: among those carrying every required tag,
/// the one with the smallest id that also carries the preferred tag, else
/// the one with the smallest id; none when no material qualifies.
pub fn select_material_for_tags(materials: &Vec<Material>, required: &Vec<String>, preferred: Option<&str>) -> (r: Option<usize>)
    requires
        forall|i: int, j: int| 0 <= i < materials@.len() && 0 <= j < materials@.len() && i != j
            ==> id_bytes(#[trigger] materials@[i]) != id_bytes(#[trigger] materials@[j]),
    ensures
        ({
            let pref = match preferred { Some(p) => Some(p@), None => None };
            let pm = |m: Material| preferred_match(m, required@, pref);
            let am = |m: Material| has_all(m, required@);
            match r {
                Some(i) => if exists|j: int| 0 <= j < materials@.len() && pm(#[trigger] materials@[j]) {
                    least_with(materials@, i as int, pm)
                } else {
                    least_with(materials@, i as int, am)
                },
                None => forall|j: int| 0 <= j < materials@.len() ==> !am(#[trigger] materials@[j]),
            }
        }),
{
    let ghost pref = match preferred { Some(p) => Some(p@), None => None::<Seq<char>> };
    let ghost pm = |m: Material| preferred_match(m, required@, pref);
    let ghost am = |m: Material| has_all(m, required@);
    let mut best_pref: Option<usize> = None;
    let mut best_any: Option<usize> = None;
    let mut i: usize = 0;
    while i < materials.len()
        invariant
            0 <= i <= materials@.len(),
            forall|a: int, b: int| 0 <= a < materials@.len() && 0 <= b < materials@.len() && a != b
                ==> id_bytes(#[trigger] materials@[a]) != id_bytes(#[trigger] materials@[b]),
            pref == (match preferred { Some(p) => Some(p@), None => None::<Seq<char>> }),
            pm == (|m: Material| preferred_match(m, required@, pref)),
            am == (|m: Material| has_all(m, required@)),
            match best_pref {
                Some(b) => b < i && pm(materials@[b as int]) && forall|j: int| 0 <= j < i && j != b && pm(#[trigger] materials@[j])
                    ==> bytes_lt(id_bytes(materials@[b as int]), id_bytes(materials@[j])),
                None => forall|j: int| 0 <= j < i ==> !pm(#[trigger] materials@[j]),
            },
            match best_any {
                Some(b) => b < i && am(materials@[b as int]) && forall|j: int| 0 <= j < i && j != b && am(#[trigger] materials@[j])
                    ==> bytes_lt(id_bytes(materials@[b as int]), id_bytes(materials@[j])),
                None => forall|j: int| 0 <= j < i ==> !am(#[trigger] materials@[j]),
            },
        decreases materials@.len() - i,
    {
        let m = &materials[i];
        if carries_all(m, required) {
            let is_pref = match preferred {
                Some(p) => carries(m, p),
                None => false,
            };
            if is_pref {
                let better = match best_pref {
                    None => true,
                    Some(b) => str_less(m.id.as_str(), materials[b].id.as_str()),
                };
                proof {
                    if let Some(b) = best_pref {
                        lemma_bytes_lt_total(id_bytes(materials@[i as int]), id_bytes(materials@[b as int]));
                        if better {
                            assert forall|j: int| 0 <= j < i + 1 && j != i && pm(#[trigger] materials@[j])
                                implies bytes_lt(id_bytes(materials@[i as int]), id_bytes(materials@[j])) by {
                                if j != b as int {
                                    lemma_bytes_lt_transitive(id_bytes(materials@[i as int]), id_bytes(materials@[b as int]), id_bytes(materials@[j]));
                                }
                            }
                        }
                    }
                }
                if better {
                    best_pref = Some(i);
                }
            }
            let better_any = match best_any {
                None => true,
                Some(b) => str_less(m.id.as_str(), materials[b].id.as_str()),
            };
            proof {
                if let Some(b) = best_any {
                    lemma_bytes_lt_total(id_bytes(materials@[i as int]), id_bytes(materials@[b as int]));
                    if better_any {
                        assert forall|j: int| 0 <= j < i + 1 && j != i && am(#[trigger] materials@[j])
                            implies bytes_lt(id_bytes(materials@[i as int]), id_bytes(materials@[j])) by {
                            if j != b as int {
                                lemma_bytes_lt_transitive(id_bytes(materials@[i as int]), id_bytes(materials@[b as int]), id_bytes(materials@[j]));
                            }
                        }
                    }
                }
            }
            if better_any {
                best_any = Some(i);
            }
        }
        i = i + 1;
    }
    match best_pref {
        Some(b) => Some(b),
        None => best_any,
    }
}


/// Which component of a structure a requirement is about.
#[derive(Debug, Clone, Copy, PartialEq, Eq, Structural)]
pub enum RequirementKind {
    Wall,
    Roof,
    /// Any other component.
    Other,
}

/// A component requirement of a structure, with the material tags it asks
/// for.
#[derive(Debug)]
pub struct StructureRequirement {
    pub kind: RequirementKind,
    pub tags: Vec<String>,
}

/// Position of the first requirement of `kind` at or after `i`, if any.
pub open spec fn first_of_kind(rs: Seq<StructureRequirement>, kind: RequirementKind, i: int) -> Option<int>
    decreases rs.len() - i,
{
    if i < 0 || i >= rs.len() {
        None
    } else if rs[i].kind == kind {
        Some(i)
    } else {
        first_of_kind(rs, kind, i + 1)
    }
}

/// The tags a structure asks for a component: those of its first
/// requirement of that kind, when there is one and it names any tags; else
/// the single fallback tag (also when the structure is unknown).
pub open spec fn requirement_tags_spec(reqs: Option<Seq<StructureRequirement>>, kind: RequirementKind, fallback: Seq<char>) -> Seq<Seq<char>> {
    match reqs {
        Some(rs) => match first_of_kind(rs, kind, 0) {
            Some(k) => if rs[k].tags@.len() > 0 { rs[k].tags@.map_values(|t: String| t@) } else { seq![fallback] },
            None => seq![fallback],
        },
        None => seq![fallback],
    }
}

/// A copy of a list of strings.
fn copy_strings(v: &Vec<String>) -> (c: Vec<String>)
    ensures
        c@.map_values(|t: String| t@) == v@.map_values(|t: String| t@),
{
    let mut c: Vec<String> = Vec::new();
    let mut i: usize = 0;
    while i < v.len()
        invariant
            0 <= i <= v@.len(),
            c@.len() == i,
            forall|k: int| 0 <= k < i ==> (#[trigger] c@[k])@ == v@[k]@,
        decreases v@.len() - i,
    {
        let ghost before = c@;
        let t = v[i].as_str().to_owned();
        c.push(t);
        proof {
            assert forall|k: int| 0 <= k < i + 1 implies (#[trigger] c@[k])@ == v@[k]@ by {
                if k < i {
                    assert(c@[k] == before[k]);
                }
            }
        }
        i = i + 1;
    }
    proof {
        assert(c@.map_values(|t: String| t@) =~= v@.map_values(|t: String| t@));
    }
    c
}

/// The tags a structure asks for a component (see
/// [`requirement_tags_spec`]).
pub fn structure_requirement_tags(reqs: Option<&Vec<StructureRequirement>>, kind: RequirementKind, fallback: &str) -> (tags: Vec<String>)
    ensures
        tags@.map_values(|t: String| t@) == requirement_tags_spec(match reqs { Some(r) => Some(r@), None => None }, kind, fallback@),
{
    let mut fb: Vec<String> = Vec::new();
    fb.push(fallback.to_owned());
    proof {
        assert(fb@.map_values(|t: String| t@) =~= seq![fallback@]);
    }
    let rs = match reqs {
        Some(r) => r,
        None => return fb,
    };
    let mut k: usize = 0;
    while k < rs.len()
        invariant
            0 <= k <= rs@.len(),
            reqs == Some(rs),
            first_of_kind(rs@, kind, 0) == first_of_kind(rs@, kind, k as int),
            fb@.map_values(|t: String| t@) == seq![fallback@],
        decreases rs@.len() - k,
    {
        if rs[k].kind == kind {
            proof {
                assert(first_of_kind(rs@, kind, k as int) == Some(k as int));
            }
            if rs[k].tags.len() > 0 {
                return copy_strings(&rs[k].tags);
            } else {
                return fb;
            }
        }
        k = k + 1;
    }
    fb
}

} // verus!

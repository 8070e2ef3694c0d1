//! The stable order in which a graph is written out: entities by id, edges
//! by source, target and kind.  Whatever order the graph holds them in,
//! the written order is the same.
use vstd::prelude::*;
use vstd::multiset::Multiset;
use crate::entity::EntityInfo;
use crate::text::{chars_of, compare_chars, lemma_lex_asymmetric, lemma_lex_irreflexive, lemma_lex_total, lemma_lex_transitive, lex_lt};

verus! {

broadcast use vstd::seq_lib::group_to_multiset_ensures, vstd::multiset::group_multiset_axioms;

/// The kind of a reference from one entity to another.
#[derive(Clone, Copy, Debug, PartialEq, Eq, Structural, PartialOrd, Ord)]
pub enum RefType {
    Calls,
    Imports,
    TypeRef,
}

/// An edge of the entity graph.
#[derive(Clone, Debug)]
pub struct EntityRef {
    pub from_entity: String,
    pub to_entity: String,
    pub ref_type: RefType,
}

/// The model of an edge.
pub struct EntityRefView {
    pub from_entity: Seq<char>,
    pub to_entity: Seq<char>,
    pub ref_type: RefType,
}

impl View for EntityRef {
    type V = EntityRefView;

    open spec fn view(&self) -> EntityRefView {
        EntityRefView {
            from_entity: self.from_entity@,
            to_entity: self.to_entity@,
            ref_type: self.ref_type,
        }
    }
}

/// The rank of a reference kind in the written order.
pub open spec fn ref_type_key(t: RefType) -> u8 {
    match t {
        RefType::Calls => 0,
        RefType::Imports => 1,
        RefType::TypeRef => 2,
    }
}

fn ref_type_sort_key(ref_type: &RefType) -> (r: u8)
    ensures
        r == ref_type_key(*ref_type),
{
    match ref_type {
        RefType::Calls => 0,
        RefType::Imports => 1,
        RefType::TypeRef => 2,
    }
}

/// Edge `a` comes strictly before edge `b`: by source id, then target id,
/// then kind.
pub open spec fn edge_lt(a: EntityRefView, b: EntityRefView) -> bool {
    ||| lex_lt(a.from_entity, b.from_entity)
    ||| (a.from_entity == b.from_entity && lex_lt(a.to_entity, b.to_entity))
    ||| (a.from_entity == b.from_entity && a.to_entity == b.to_entity && ref_type_key(a.ref_type)
        < ref_type_key(b.ref_type))
}

/// Edge `a` comes before or is edge `b`.
pub open spec fn edge_le(a: EntityRefView, b: EntityRefView) -> bool {
    edge_lt(a, b) || a == b
}

pub open spec fn edge_order() -> spec_fn(EntityRefView, EntityRefView) -> bool {
    |a: EntityRefView, b: EntityRefView| edge_le(a, b)
}

/// Id `a` comes before or is id `b`.
pub open spec fn id_order() -> spec_fn(Seq<char>, Seq<char>) -> bool {
    |a: Seq<char>, b: Seq<char>| lex_lt(a, b) || a == b
}

/// Every item is at or before each later one.
pub open spec fn sorted_by<T>(s: Seq<T>, le: spec_fn(T, T) -> bool) -> bool {
    forall|i: int, j: int| 0 <= i < j < s.len() ==> #[trigger] le(s[i], s[j])
}

pub open spec fn transitive<T>(le: spec_fn(T, T) -> bool) -> bool {
    forall|a: T, b: T, c: T| #[trigger] le(a, b) && #[trigger] le(b, c) ==> le(a, c)
}

pub open spec fn antisymmetric<T>(le: spec_fn(T, T) -> bool) -> bool {
    forall|a: T, b: T| #[trigger] le(a, b) && le(b, a) ==> a == b
}

/// The models of a sequence of edges.
pub open spec fn edge_views(s: Seq<EntityRef>) -> Seq<EntityRefView> {
    s.map_values(|e: EntityRef| e@)
}

/// The ids of a sequence of entities.
pub open spec fn entity_ids(s: Seq<EntityInfo>) -> Seq<Seq<char>> {
    s.map_values(|e: EntityInfo| e.id@)
}

proof fn lemma_edge_order_laws()
    ensures
        transitive(edge_order()),
        antisymmetric(edge_order()),
        forall|a: EntityRefView, b: EntityRefView| !edge_lt(a, a) && !(#[trigger] edge_lt(a, b) && edge_lt(b, a)),
        forall|a: EntityRefView, b: EntityRefView| a != b ==> #[trigger] edge_lt(a, b) || edge_lt(b, a),
{
    assert forall|a: EntityRefView, b: EntityRefView| !edge_lt(a, a) && !(#[trigger] edge_lt(a, b) && edge_lt(b, a)) by {
        lemma_lex_irreflexive(a.from_entity);
        lemma_lex_irreflexive(a.to_entity);
        lemma_lex_asymmetric(a.from_entity, b.from_entity);
        lemma_lex_asymmetric(a.to_entity, b.to_entity);
    }
    assert forall|a: EntityRefView, b: EntityRefView| a != b implies #[trigger] edge_lt(a, b) || edge_lt(b, a) by {
        lemma_lex_total(a.from_entity, b.from_entity);
        lemma_lex_total(a.to_entity, b.to_entity);
        if a.from_entity == b.from_entity && a.to_entity == b.to_entity && a.ref_type != b.ref_type {
            assert(ref_type_key(a.ref_type) != ref_type_key(b.ref_type));
        }
    }
    assert forall|a: EntityRefView, b: EntityRefView, c: EntityRefView| #[trigger] edge_order()(a, b) && #[trigger] edge_order()(b, c) implies edge_order()(a, c) by {
        if lex_lt(a.from_entity, b.from_entity) && lex_lt(b.from_entity, c.from_entity) {
            lemma_lex_transitive(a.from_entity, b.from_entity, c.from_entity);
        }
        if lex_lt(a.to_entity, b.to_entity) && lex_lt(b.to_entity, c.to_entity) {
            lemma_lex_transitive(a.to_entity, b.to_entity, c.to_entity);
        }
    }
    assert forall|a: EntityRefView, b: EntityRefView| #[trigger] edge_order()(a, b) && edge_order()(b, a) implies a == b by {
        lemma_lex_asymmetric(a.from_entity, b.from_entity);
        lemma_lex_asymmetric(a.to_entity, b.to_entity);
    }
}

proof fn lemma_id_order_laws()
    ensures
        transitive(id_order()),
        antisymmetric(id_order()),
{
    assert forall|a: Seq<char>, b: Seq<char>, c: Seq<char>| #[trigger] id_order()(a, b) && #[trigger] id_order()(b, c) implies id_order()(a, c) by {
        if lex_lt(a, b) && lex_lt(b, c) {
            lemma_lex_transitive(a, b, c);
        }
    }
    assert forall|a: Seq<char>, b: Seq<char>| #[trigger] id_order()(a, b) && id_order()(b, a) implies a == b by {
        lemma_lex_asymmetric(a, b);
    }
}

/// Inserting `x` where everything before is at or before it and the item
/// after is after it keeps a sorted sequence sorted.
proof fn lemma_insert_sorted<T>(s: Seq<T>, p: int, x: T, le: spec_fn(T, T) -> bool)
    requires
        sorted_by(s, le),
        transitive(le),
        0 <= p <= s.len(),
        forall|j: int| 0 <= j < p ==> #[trigger] le(s[j], x),
        p < s.len() ==> le(x, s[p]),
    ensures
        sorted_by(s.insert(p, x), le),
{
    let t = s.insert(p, x);
    assert forall|i: int, j: int| 0 <= i < j < t.len() implies #[trigger] le(t[i], t[j]) by {
        if j < p {
            assert(le(s[i], s[j]));
        } else if j == p {
            assert(le(s[i], x));
        } else if i == p {
            if j - 1 > p {
                assert(le(s[p], s[j - 1]));
            }
        } else if i < p {
            assert(le(s[i], x));
            assert(le(x, s[p]));
            if j - 1 > p {
                assert(le(s[p], s[j - 1]));
                assert(le(x, s[j - 1]));
            }
        } else {
            assert(le(s[i - 1], s[j - 1]));
        }
    }
}

/// Two sorted sequences with the same items are the same sequence.
pub proof fn lemma_sorted_unique<T>(a: Seq<T>, b: Seq<T>, le: spec_fn(T, T) -> bool)
    requires
        sorted_by(a, le),
        sorted_by(b, le),
        antisymmetric(le),
        a.to_multiset() == b.to_multiset(),
    ensures
        a == b,
    decreases a.len(),
{
    assert(a.len() == b.len()) by {
        a.to_multiset_ensures();
        b.to_multiset_ensures();
    }
    if a.len() == 0 {
        assert(a =~= b);
    } else {
        let x = a[0];
        let y = b[0];
        assert(b.to_multiset().count(x) > 0) by {
            assert(a.contains(x));
        }
        assert(b.contains(x));
        assert(a.to_multiset().count(y) > 0) by {
            assert(b.contains(y));
        }
        assert(a.contains(y));
        let k = choose|k: int| 0 <= k < b.len() && b[k] == x;
        let m = choose|m: int| 0 <= m < a.len() && a[m] == y;
        if k > 0 {
            assert(le(b[0], b[k]));
        }
        if m > 0 {
            assert(le(a[0], a[m]));
        }
        if k > 0 && m > 0 {
            assert(x == y);
        }
        assert(x == y);
        let a1 = a.remove(0);
        let b1 = b.remove(0);
        vstd::seq_lib::to_multiset_remove(a, 0);
        vstd::seq_lib::to_multiset_remove(b, 0);
        assert(sorted_by(a1, le)) by {
            assert forall|i: int, j: int| 0 <= i < j < a1.len() implies #[trigger] le(a1[i], a1[j]) by {
                assert(le(a[i + 1], a[j + 1]));
            }
        }
        assert(sorted_by(b1, le)) by {
            assert forall|i: int, j: int| 0 <= i < j < b1.len() implies #[trigger] le(b1[i], b1[j]) by {
                assert(le(b[i + 1], b[j + 1]));
            }
        }
        lemma_sorted_unique(a1, b1, le);
        assert(a =~= b) by {
            assert forall|i: int| 0 <= i < a.len() implies a[i] == b[i] by {
                if i > 0 {
                    assert(a[i] == a1[i - 1]);
                    assert(b[i] == b1[i - 1]);
                }
            }
        }
    }
}

/// Three-way comparison of edges: negative, zero or positive as `a` comes
/// before, is, or comes after `b`.
pub fn entity_ref_order(a: &EntityRef, b: &EntityRef) -> (r: i8)
    ensures
        r < 0 <==> edge_lt(a@, b@),
        r == 0 <==> a@ == b@,
        r > 0 <==> edge_lt(b@, a@),
{
    proof {
        lemma_edge_order_laws();
    }
    let af = chars_of(a.from_entity.as_str());
    let bf = chars_of(b.from_entity.as_str());
    let c = compare_chars(af.as_slice(), bf.as_slice());
    if c != 0 {
        return c;
    }
    let at = chars_of(a.to_entity.as_str());
    let bt = chars_of(b.to_entity.as_str());
    let c = compare_chars(at.as_slice(), bt.as_slice());
    if c != 0 {
        return c;
    }
    let ka = ref_type_sort_key(&a.ref_type);
    let kb = ref_type_sort_key(&b.ref_type);
    if ka < kb {
        -1
    } else if ka > kb {
        1
    } else {
        assert(a.ref_type == b.ref_type);
        0
    }
}

/// Compares two edges in the written order: by source id, then target id,
/// then kind.
pub fn compare_entity_refs(a: &EntityRef, b: &EntityRef) -> (r: std::cmp::Ordering)
    ensures
        match r {
            std::cmp::Ordering::Less => edge_lt(a@, b@),
            std::cmp::Ordering::Equal => a@ == b@,
            std::cmp::Ordering::Greater => edge_lt(b@, a@),
        },
{
    let c = entity_ref_order(a, b);
    if c < 0 {
        std::cmp::Ordering::Less
    } else if c == 0 {
        std::cmp::Ordering::Equal
    } else {
        std::cmp::Ordering::Greater
    }
}

/// The edges in the written order: by source id, then target id, then
/// kind.  The result holds the same edges.
pub fn sort_edges(edges: Vec<EntityRef>) -> (r: Vec<EntityRef>)
    ensures
        edge_views(r@).to_multiset() == edge_views(edges@).to_multiset(),
        sorted_by(edge_views(r@), edge_order()),
{
    proof {
        lemma_edge_order_laws();
    }
    let ghost all = edge_views(edges@);
    let mut rest = edges;
    let mut out: Vec<EntityRef> = Vec::new();
    assert(edge_views(out@).to_multiset().add(edge_views(rest@).to_multiset()) =~= all.to_multiset()) by {
        assert(edge_views(out@) =~= Seq::<EntityRefView>::empty());
    }
    while rest.len() > 0
        invariant
            all.to_multiset() == edge_views(out@).to_multiset().add(edge_views(rest@).to_multiset()),
            sorted_by(edge_views(out@), edge_order()),
            transitive(edge_order()),
            forall|a: EntityRefView, b: EntityRefView| a != b ==> #[trigger] edge_lt(a, b) || edge_lt(b, a),
        decreases rest@.len(),
    {
        let ghost before = rest@;
        let x = rest.pop().unwrap();
        assert(edge_views(before) =~= edge_views(rest@).push(x@));
        let ghost vo = edge_views(out@);
        let mut lo: usize = 0;
        let mut hi: usize = out.len();
        while lo < hi
            invariant
                lo <= hi <= out@.len(),
                vo == edge_views(out@),
                sorted_by(vo, edge_order()),
                transitive(edge_order()),
                forall|j: int| 0 <= j < lo ==> #[trigger] edge_order()(vo[j], x@),
                forall|j: int| hi <= j < vo.len() ==> #[trigger] edge_order()(x@, vo[j]),
            decreases hi - lo,
        {
            let mid = lo + (hi - lo) / 2;
            assert(vo[mid as int] == out@[mid as int]@);
            if entity_ref_order(&out[mid], &x) <= 0 {
                proof {
                    assert(edge_le(vo[mid as int], x@));
                    assert(edge_order()(vo[mid as int], x@));
                    assert forall|j: int| 0 <= j < mid + 1 implies #[trigger] edge_order()(vo[j], x@) by {
                        if j < mid {
                            assert(edge_order()(vo[j], vo[mid as int]));
                        }
                    }
                }
                lo = mid + 1;
            } else {
                proof {
                    assert(edge_le(x@, vo[mid as int]));
                    assert(edge_order()(x@, vo[mid as int]));
                    assert forall|j: int| mid <= j < vo.len() implies #[trigger] edge_order()(x@, vo[j]) by {
                        if j > mid {
                            assert(edge_order()(vo[mid as int], vo[j]));
                        }
                    }
                }
                hi = mid;
            }
        }
        let p = lo;
        proof {
            lemma_insert_sorted(vo, p as int, x@, edge_order());
        }
        out.insert(p, x);
        assert(edge_views(out@) =~= vo.insert(p as int, x@));
        proof {
            vstd::seq_lib::to_multiset_insert(vo, p as int, x@);
        }
        assert(all.to_multiset() =~= edge_views(out@).to_multiset().add(edge_views(rest@).to_multiset()));
    }
    assert(edge_views(rest@).to_multiset() =~= Multiset::<EntityRefView>::empty()) by {
        assert(edge_views(rest@) =~= Seq::<EntityRefView>::empty());
    }
    assert(all.to_multiset() =~= edge_views(out@).to_multiset());
    out
}

/// The entities in the written order: by id.  The result holds the same
/// entities.
pub fn sort_entities_by_id(entities: Vec<EntityInfo>) -> (r: Vec<EntityInfo>)
    ensures
        r@.to_multiset() == entities@.to_multiset(),
        entity_ids(r@).to_multiset() == entity_ids(entities@).to_multiset(),
        sorted_by(entity_ids(r@), id_order()),
{
    proof {
        lemma_id_order_laws();
    }
    let ghost all = entities@;
    let mut rest = entities;
    let mut out: Vec<EntityInfo> = Vec::new();
    assert(out@.to_multiset().add(rest@.to_multiset()) =~= all.to_multiset()) by {
        assert(out@ =~= Seq::<EntityInfo>::empty());
    }
    assert(entity_ids(out@).to_multiset().add(entity_ids(rest@).to_multiset()) =~= entity_ids(all).to_multiset()) by {
        assert(entity_ids(out@) =~= Seq::<Seq<char>>::empty());
    }
    while rest.len() > 0
        invariant
            all.to_multiset() == out@.to_multiset().add(rest@.to_multiset()),
            entity_ids(all).to_multiset() == entity_ids(out@).to_multiset().add(entity_ids(rest@).to_multiset()),
            sorted_by(entity_ids(out@), id_order()),
            transitive(id_order()),
        decreases rest@.len(),
    {
        let ghost before = rest@;
        let x = rest.pop().unwrap();
        assert(before =~= rest@.push(x));
        assert(entity_ids(before) =~= entity_ids(rest@).push(x.id@));
        let xc = chars_of(x.id.as_str());
        let ghost vo = entity_ids(out@);
        let ghost oo = out@;
        let mut lo: usize = 0;
        let mut hi: usize = out.len();
        while lo < hi
            invariant
                lo <= hi <= out@.len(),
                vo == entity_ids(out@),
                xc@ == x.id@,
                sorted_by(vo, id_order()),
                transitive(id_order()),
                forall|j: int| 0 <= j < lo ==> #[trigger] id_order()(vo[j], x.id@),
                forall|j: int| hi <= j < vo.len() ==> #[trigger] id_order()(x.id@, vo[j]),
            decreases hi - lo,
        {
            let mid = lo + (hi - lo) / 2;
            assert(vo[mid as int] == out@[mid as int].id@);
            if compare_chars(chars_of(out[mid].id.as_str()).as_slice(), xc.as_slice()) <= 0 {
                proof {
                    assert(id_order()(vo[mid as int], x.id@));
                    assert forall|j: int| 0 <= j < mid + 1 implies #[trigger] id_order()(vo[j], x.id@) by {
                        if j < mid {
                            assert(id_order()(vo[j], vo[mid as int]));
                        }
                    }
                }
                lo = mid + 1;
            } else {
                proof {
                    lemma_lex_total(x.id@, vo[mid as int]);
                    assert(id_order()(x.id@, vo[mid as int]));
                    assert forall|j: int| mid <= j < vo.len() implies #[trigger] id_order()(x.id@, vo[j]) by {
                        if j > mid {
                            assert(id_order()(vo[mid as int], vo[j]));
                        }
                    }
                }
                hi = mid;
            }
        }
        let p = lo;
        proof {
            lemma_insert_sorted(vo, p as int, x.id@, id_order());
        }
        out.insert(p, x);
        assert(entity_ids(out@) =~= vo.insert(p as int, x.id@));
        proof {
            vstd::seq_lib::to_multiset_insert(vo, p as int, x.id@);
            vstd::seq_lib::to_multiset_insert(oo, p as int, x);
        }
        assert(all.to_multiset() =~= out@.to_multiset().add(rest@.to_multiset()));
        assert(entity_ids(all).to_multiset() =~= entity_ids(out@).to_multiset().add(entity_ids(rest@).to_multiset()));
    }
    assert(rest@ =~= Seq::<EntityInfo>::empty());
    assert(entity_ids(rest@) =~= Seq::<Seq<char>>::empty());
    assert(all.to_multiset() =~= out@.to_multiset());
    assert(entity_ids(all).to_multiset() =~= entity_ids(out@).to_multiset());
    out
}

/// The written edge order depends only on which edges the graph holds:
/// any two orders that `sort_edges` may give for inputs holding the same
/// edges are the same.
pub proof fn law_edge_order_is_stable(a: Seq<EntityRefView>, b: Seq<EntityRefView>)
    requires
        sorted_by(a, edge_order()),
        sorted_by(b, edge_order()),
        a.to_multiset() == b.to_multiset(),
    ensures
        a == b,
{
    lemma_edge_order_laws();
    lemma_sorted_unique(a, b, edge_order());
}

/// The written order of entity ids depends only on which ids the graph
/// holds.
pub proof fn law_entity_id_order_is_stable(a: Seq<Seq<char>>, b: Seq<Seq<char>>)
    requires
        sorted_by(a, id_order()),
        sorted_by(b, id_order()),
        a.to_multiset() == b.to_multiset(),
    ensures
        a == b,
{
    lemma_id_order_laws();
    lemma_sorted_unique(a, b, id_order());
}

} // verus!

//! The mathematical model of field descriptions, and the relations on it
//! that the containers' contracts are stated in.

use crate::field::{Field, FieldRef};
use crate::text::decimal;
use vstd::layout::size_of;
use vstd::prelude::*;
use vstd::utf8::encode_utf8;

verus! {

/// What one field description says: the slot's name, its type, and whether
/// it may hold nulls. Two descriptions are the same field exactly when their
/// views are equal, wherever they are stored.
pub struct FieldView {
    pub name: Seq<char>,
    pub data_type: DataTypeView,
    pub nullable: bool,
}

/// The shape of a data type, with the views of the fields nested in it.
pub enum DataTypeView {
    Null,
    Boolean,
    Int8,
    Int16,
    Int32,
    Int64,
    UInt8,
    UInt16,
    UInt32,
    UInt64,
    Utf8,
    Binary,
    List(Box<FieldView>),
    Struct(Seq<FieldView>),
    Union(Seq<(i8, FieldView)>),
}

impl FieldView {
    /// `self` is a structural superset of `other`: the names agree, `self`
    /// admits nulls wherever `other` does, and the type of `self` contains
    /// the type of `other`.
    pub open spec fn contains(self, other: FieldView) -> bool
        decreases self, 0nat,
    {
        &&& self.name == other.name
        &&& (self.nullable || !other.nullable)
        &&& self.data_type.contains(other.data_type)
    }

    /// Byte footprint of one field: the record itself, the bytes of its
    /// name, and whatever its type holds behind shared handles.
    pub open spec fn size(self) -> nat
        decreases self,
    {
        size_of::<Field>() + encode_utf8(self.name).len() + self.data_type.nested_size()
    }
}

impl DataTypeView {
    /// Nested types are compared through their fields; every other type
    /// contains itself only.
    pub open spec fn contains(self, other: DataTypeView) -> bool
        decreases self, 0nat,
    {
        match (self, other) {
            (DataTypeView::List(a), DataTypeView::List(b)) => a.contains(*b),
            (DataTypeView::Struct(a), DataTypeView::Struct(b)) => fields_contain(a, b),
            (DataTypeView::Union(a), DataTypeView::Union(b)) => union_contains(a, b),
            _ => self == other,
        }
    }

    /// Bytes that a type holds outside the field record it lives in.
    pub open spec fn nested_size(self) -> nat
        decreases self,
    {
        match self {
            DataTypeView::List(f) => f.size(),
            DataTypeView::Struct(fields) => fields_size(fields),
            DataTypeView::Union(pairs) => union_size(pairs),
            _ => 0,
        }
    }
}

/// The superset relation on ordered field collections: equal lengths, and
/// at every position the field of `a` contains the field of `b`.
pub open spec fn fields_contain(a: Seq<FieldView>, b: Seq<FieldView>) -> bool
    decreases a, 0nat,
{
    &&& a.len() == b.len()
    &&& forall|i: int| 0 <= i < a.len() ==> (#[trigger] a[i]).contains(b[i])
}

/// Some variant of `pairs` carries `tag` and a field that `field` contains.
pub open spec fn union_has_match(pairs: Seq<(i8, FieldView)>, tag: i8, field: FieldView) -> bool
    decreases field, 1nat,
{
    exists|j: int| 0 <= j < pairs.len() && (#[trigger] pairs[j]).0 == tag && field.contains(pairs[j].1)
}

/// The superset relation on union variants: every variant of `a` has a
/// variant of `b` under the same tag whose field it contains.
pub open spec fn union_contains(a: Seq<(i8, FieldView)>, b: Seq<(i8, FieldView)>) -> bool
    decreases a, 0nat,
{
    forall|i: int| 0 <= i < a.len() ==> union_has_match(b, (#[trigger] a[i]).0, a[i].1)
}

/// Byte footprint of an ordered field collection: each field's own
/// footprint plus one shared handle per slot.
pub open spec fn fields_size(fields: Seq<FieldView>) -> nat
    decreases fields,
{
    if fields.len() == 0 {
        0
    } else {
        fields_size(fields.drop_last()) + fields.last().size() + size_of::<FieldRef>()
    }
}

/// Byte footprint of a collection of union variants: each field's own
/// footprint plus one tagged shared handle per variant.
pub open spec fn union_size(pairs: Seq<(i8, FieldView)>) -> nat
    decreases pairs,
{
    if pairs.len() == 0 {
        0
    } else {
        union_size(pairs.drop_last()) + pairs.last().1.size() + size_of::<(i8, FieldRef)>()
    }
}

/// The footprint of a prefix grows by one field and one handle with each
/// position, and never exceeds the footprint of the whole collection.
pub proof fn lemma_fields_size_step(fields: Seq<FieldView>, i: int)
    requires
        0 <= i < fields.len(),
    ensures
        fields_size(fields.take(i + 1)) == fields_size(fields.take(i)) + fields[i].size()
            + size_of::<FieldRef>(),
        fields_size(fields.take(i + 1)) <= fields_size(fields),
    decreases fields.len() - i,
{
    assert(fields.take(i + 1).drop_last() =~= fields.take(i));
    if i + 1 < fields.len() {
        lemma_fields_size_step(fields, i + 1);
    } else {
        assert(fields.take(i + 1) =~= fields);
    }
}

/// The footprint of a prefix grows by one field and one tagged handle with
/// each position, and never exceeds the footprint of the whole collection.
pub proof fn lemma_union_size_step(pairs: Seq<(i8, FieldView)>, i: int)
    requires
        0 <= i < pairs.len(),
    ensures
        union_size(pairs.take(i + 1)) == union_size(pairs.take(i)) + pairs[i].1.size() + size_of::<
            (i8, FieldRef),
        >(),
        union_size(pairs.take(i + 1)) <= union_size(pairs),
    decreases pairs.len() - i,
{
    assert(pairs.take(i + 1).drop_last() =~= pairs.take(i));
    if i + 1 < pairs.len() {
        lemma_union_size_step(pairs, i + 1);
    } else {
        assert(pairs.take(i + 1) =~= pairs);
    }
}

/// Every field contains itself.
pub proof fn lemma_field_contains_reflexive(f: FieldView)
    ensures
        f.contains(f),
    decreases f,
{
    match f.data_type {
        DataTypeView::List(a) => {
            lemma_field_contains_reflexive(*a);
        },
        DataTypeView::Struct(a) => {
            assert forall|i: int| 0 <= i < a.len() implies (#[trigger] a[i]).contains(a[i]) by {
                lemma_field_contains_reflexive(a[i]);
            }
        },
        DataTypeView::Union(a) => {
            assert forall|i: int| 0 <= i < a.len() implies union_has_match(
                a,
                (#[trigger] a[i]).0,
                a[i].1,
            ) by {
                lemma_field_contains_reflexive(a[i].1);
            }
        },
        _ => {},
    }
    assert(f.data_type.contains(f.data_type));
}

/// Every ordered field collection contains itself.
pub proof fn lemma_fields_contain_reflexive(fields: Seq<FieldView>)
    ensures
        fields_contain(fields, fields),
{
    assert forall|i: int| 0 <= i < fields.len() implies (#[trigger] fields[i]).contains(
        fields[i],
    ) by {
        lemma_field_contains_reflexive(fields[i]);
    }
}

/// What contains a field contains whatever that field contains.
pub proof fn lemma_field_contains_transitive(a: FieldView, b: FieldView, c: FieldView)
    requires
        a.contains(b),
        b.contains(c),
    ensures
        a.contains(c),
    decreases a,
{
    assert(a.data_type.contains(b.data_type));
    assert(b.data_type.contains(c.data_type));
    match (a.data_type, b.data_type, c.data_type) {
        (DataTypeView::List(x), DataTypeView::List(y), DataTypeView::List(z)) => {
            lemma_field_contains_transitive(*x, *y, *z);
        },
        (DataTypeView::Struct(x), DataTypeView::Struct(y), DataTypeView::Struct(z)) => {
            assert(fields_contain(x, y) && fields_contain(y, z));
            assert forall|i: int| 0 <= i < x.len() implies (#[trigger] x[i]).contains(z[i]) by {
                assert(y[i].contains(z[i]));
                lemma_field_contains_transitive(x[i], y[i], z[i]);
            }
        },
        (DataTypeView::Union(x), DataTypeView::Union(y), DataTypeView::Union(z)) => {
            assert(union_contains(x, y) && union_contains(y, z));
            assert forall|i: int| 0 <= i < x.len() implies union_has_match(
                z,
                (#[trigger] x[i]).0,
                x[i].1,
            ) by {
                assert(union_has_match(y, x[i].0, x[i].1));
                let j = choose|j: int|
                    0 <= j < y.len() && (#[trigger] y[j]).0 == x[i].0 && x[i].1.contains(y[j].1);
                assert(union_has_match(z, y[j].0, y[j].1));
                let k = choose|k: int|
                    0 <= k < z.len() && (#[trigger] z[k]).0 == y[j].0 && y[j].1.contains(z[k].1);
                lemma_field_contains_transitive(x[i].1, y[j].1, z[k].1);
            }
        },
        _ => {},
    }
    assert(a.data_type.contains(c.data_type));
}

/// What contains a collection contains whatever that collection contains.
pub proof fn lemma_fields_contain_transitive(
    a: Seq<FieldView>,
    b: Seq<FieldView>,
    c: Seq<FieldView>,
)
    requires
        fields_contain(a, b),
        fields_contain(b, c),
    ensures
        fields_contain(a, c),
{
    assert forall|i: int| 0 <= i < a.len() implies (#[trigger] a[i]).contains(c[i]) by {
        assert(b[i].contains(c[i]));
        lemma_field_contains_transitive(a[i], b[i], c[i]);
    }
}

/// The superset relation is not symmetric: a collection can contain
/// another that does not contain it. A nullable field contains its
/// non-nullable twin, not the other way round.
pub proof fn lemma_fields_contain_not_symmetric()
    ensures
        exists|f: Seq<FieldView>, g: Seq<FieldView>| fields_contain(f, g) && !fields_contain(g, f),
{
    let nullable = FieldView { name: Seq::empty(), data_type: DataTypeView::Int32, nullable: true };
    let required = FieldView { name: Seq::empty(), data_type: DataTypeView::Int32, nullable: false };
    let f = seq![nullable];
    let g = seq![required];
    assert(f[0].contains(g[0]));
    assert(!g[0].contains(f[0]));
    assert(fields_contain(f, g) && !fields_contain(g, f));
}

/// Collections of different lengths are never in the superset relation.
pub proof fn lemma_fields_contain_needs_equal_len(a: Seq<FieldView>, b: Seq<FieldView>)
    requires
        a.len() != b.len(),
    ensures
        !fields_contain(a, b),
{
}

/// Whether `type_ids` can tag the variants of one union: each is one of
/// 0..=127, and none occurs twice.
pub open spec fn type_ids_valid(type_ids: Seq<i8>) -> bool {
    &&& forall|i: int| 0 <= i < type_ids.len() ==> 0 <= #[trigger] type_ids[i]
    &&& forall|i: int, j: int|
        0 <= i < j < type_ids.len() ==> #[trigger] type_ids[i] != #[trigger] type_ids[j]
}

/// The tags paired with the fields position by position, as far as both reach.
pub open spec fn tagged(type_ids: Seq<i8>, fields: Seq<FieldView>) -> Seq<(i8, FieldView)> {
    Seq::new(
        if type_ids.len() <= fields.len() {
            type_ids.len()
        } else {
            fields.len()
        },
        |i: int| (type_ids[i], fields[i]),
    )
}

/// No two variants share a tag.
pub open spec fn tags_unique(pairs: Seq<(i8, FieldView)>) -> bool {
    forall|i: int, j: int|
        0 <= i < j < pairs.len() ==> (#[trigger] pairs[i]).0 != (#[trigger] pairs[j]).0
}

/// No field stands under two different tags.
pub open spec fn one_tag_per_field(pairs: Seq<(i8, FieldView)>) -> bool {
    forall|i: int, j: int|
        0 <= i < pairs.len() && 0 <= j < pairs.len() && (#[trigger] pairs[i]).1 == (
        #[trigger] pairs[j]).1 ==> pairs[i].0 == pairs[j].0
}

/// `j` is the position of the first variant of `pairs` whose field is `field`.
pub open spec fn is_first_match(pairs: Seq<(i8, FieldView)>, field: FieldView, j: int) -> bool {
    &&& 0 <= j < pairs.len()
    &&& pairs[j].1 == field
    &&& forall|k: int| 0 <= k < j ==> (#[trigger] pairs[k]).1 != field
}

/// The position of the first variant of `pairs` whose field is `field`, if
/// there is one.
pub open spec fn first_match(pairs: Seq<(i8, FieldView)>, field: FieldView) -> Option<int> {
    if exists|j: int| is_first_match(pairs, field, j) {
        Some(choose|j: int| is_first_match(pairs, field, j))
    } else {
        None
    }
}

/// Two unions disagree on the tag of one field.
pub struct TagConflict {
    /// The name of the field.
    pub name: Seq<char>,
    /// The tag of the field in the union that is merged into.
    pub self_type_id: i8,
    /// The tag of the field in the union that is merged in.
    pub field_type_id: i8,
}

impl TagConflict {
    /// The description of the conflict that the schema error carries.
    pub open spec fn text(self) -> Seq<char> {
        "Fail to merge schema field '"@ + self.name + "' because the self_type_id = "@ + decimal(
            self.self_type_id as int,
        ) + " does not equal field_type_id = "@ + decimal(self.field_type_id as int)
    }
}

/// Folding one variant into `acc`. A field that `acc` holds already must
/// come under the tag it has there, and then changes nothing; a field that
/// `acc` does not hold is appended under its tag, whether or not that tag
/// is in use.
pub open spec fn merge_one(acc: Seq<(i8, FieldView)>, tag: i8, field: FieldView) -> Result<
    Seq<(i8, FieldView)>,
    TagConflict,
> {
    match first_match(acc, field) {
        Some(j) => if acc[j].0 == tag {
            Ok(acc)
        } else {
            Err(TagConflict { name: acc[j].1.name, self_type_id: acc[j].0, field_type_id: tag })
        },
        None => Ok(acc.push((tag, field))),
    }
}

/// Folding the variants of `other` into `acc` one after the other, up to
/// the first conflict.
pub open spec fn merge_all(acc: Seq<(i8, FieldView)>, other: Seq<(i8, FieldView)>) -> Result<
    Seq<(i8, FieldView)>,
    TagConflict,
>
    decreases other.len(),
{
    if other.len() == 0 {
        Ok(acc)
    } else {
        match merge_one(acc, other[0].0, other[0].1) {
            Ok(next) => merge_all(next, other.drop_first()),
            Err(conflict) => Err(conflict),
        }
    }
}

/// Tags of which one occurs at two positions are not valid for one union.
pub proof fn lemma_repeated_tag_is_not_valid(type_ids: Seq<i8>, i: int, j: int)
    requires
        0 <= i < type_ids.len(),
        0 <= j < type_ids.len(),
        i != j,
        type_ids[i] == type_ids[j],
    ensures
        !type_ids_valid(type_ids),
{
}

/// A collection has at most one first match for a field.
pub proof fn lemma_first_match_unique(
    pairs: Seq<(i8, FieldView)>,
    field: FieldView,
    j1: int,
    j2: int,
)
    requires
        is_first_match(pairs, field, j1),
        is_first_match(pairs, field, j2),
    ensures
        j1 == j2,
{
    if j1 < j2 {
        assert(pairs[j1].1 != field);
    } else if j2 < j1 {
        assert(pairs[j2].1 != field);
    }
}

/// A collection that holds a field has a first variant that holds it.
pub proof fn lemma_first_match_exists(pairs: Seq<(i8, FieldView)>, field: FieldView, j: int)
    requires
        0 <= j < pairs.len(),
        pairs[j].1 == field,
    ensures
        first_match(pairs, field) matches Some(first) && is_first_match(pairs, field, first)
            && first <= j,
    decreases j,
{
    if exists|k: int| 0 <= k < j && (#[trigger] pairs[k]).1 == field {
        let k = choose|k: int| 0 <= k < j && (#[trigger] pairs[k]).1 == field;
        lemma_first_match_exists(pairs, field, k);
    } else {
        assert(is_first_match(pairs, field, j));
        let first = choose|first: int| is_first_match(pairs, field, first);
        lemma_first_match_unique(pairs, field, first, j);
    }
}

/// Merging in variants that the receiver holds already, under the tags it
/// has them under, changes nothing.
pub proof fn lemma_merge_of_present_variants(
    acc: Seq<(i8, FieldView)>,
    other: Seq<(i8, FieldView)>,
)
    requires
        one_tag_per_field(acc),
        forall|k: int|
            0 <= k < other.len() ==> exists|j: int|
                0 <= j < acc.len() && #[trigger] acc[j] == #[trigger] other[k],
    ensures
        merge_all(acc, other) == Ok::<Seq<(i8, FieldView)>, TagConflict>(acc),
    decreases other.len(),
{
    if other.len() > 0 {
        let j = choose|j: int| 0 <= j < acc.len() && #[trigger] acc[j] == other[0];
        lemma_first_match_exists(acc, other[0].1, j);
        let rest = other.drop_first();
        assert forall|k: int| 0 <= k < rest.len() implies exists|j: int|
            0 <= j < acc.len() && #[trigger] acc[j] == #[trigger] rest[k] by {
            assert(rest[k] == other[k + 1]);
        }
        lemma_merge_of_present_variants(acc, rest);
    }
}

/// A merge that leaves the receiver as it was found every field of the
/// other union in the receiver, under the same tag.
pub proof fn lemma_unchanged_merge_found_all(
    acc: Seq<(i8, FieldView)>,
    other: Seq<(i8, FieldView)>,
)
    requires
        merge_all(acc, other) == Ok::<Seq<(i8, FieldView)>, TagConflict>(acc),
    ensures
        forall|k: int|
            0 <= k < other.len() ==> (first_match(acc, (#[trigger] other[k]).1) matches Some(j)
                && acc[j].0 == other[k].0),
    decreases other.len(),
{
    if other.len() > 0 {
        let rest = other.drop_first();
        let next = merge_one(acc, other[0].0, other[0].1)->Ok_0;
        lemma_merge_keeps_receiver(next, rest);
        lemma_unchanged_merge_found_all(acc, rest);
        assert forall|k: int| 0 <= k < other.len() implies (first_match(
            acc,
            (#[trigger] other[k]).1,
        ) matches Some(j) && acc[j].0 == other[k].0) by {
            if k > 0 {
                assert(other[k] == rest[k - 1]);
            }
        }
    }
}

/// Merging a union with one that has the same variants leaves it as it is,
/// provided that none of its fields stands under two different tags.
pub proof fn lemma_merge_same_variants(pairs: Seq<(i8, FieldView)>)
    requires
        one_tag_per_field(pairs),
    ensures
        merge_all(pairs, pairs) == Ok::<Seq<(i8, FieldView)>, TagConflict>(pairs),
{
    lemma_merge_of_present_variants(pairs, pairs);
}

/// A union that holds one field under two different tags cannot be merged
/// with a union that has the same variants: the merge fails.
pub proof fn lemma_merge_same_variants_needs_one_tag_per_field(pairs: Seq<(i8, FieldView)>)
    requires
        !one_tag_per_field(pairs),
    ensures
        merge_all(pairs, pairs) is Err,
{
    if merge_all(pairs, pairs) is Ok {
        lemma_merge_adds_nothing_present(pairs, pairs);
        lemma_unchanged_merge_found_all(pairs, pairs);
        assert forall|i: int, j: int|
            0 <= i < pairs.len() && 0 <= j < pairs.len() && (#[trigger] pairs[i]).1 == (
            #[trigger] pairs[j]).1 implies pairs[i].0 == pairs[j].0 by {
            let first = first_match(pairs, pairs[i].1)->0;
            assert(pairs[first].0 == pairs[i].0 && pairs[first].0 == pairs[j].0);
        }
    }
}

/// A successful merge of variants whose fields the receiver all holds
/// leaves the receiver as it was.
pub proof fn lemma_merge_adds_nothing_present(
    acc: Seq<(i8, FieldView)>,
    other: Seq<(i8, FieldView)>,
)
    requires
        forall|k: int|
            0 <= k < other.len() ==> exists|j: int|
                0 <= j < acc.len() && (#[trigger] acc[j]).1 == (#[trigger] other[k]).1,
    ensures
        merge_all(acc, other) matches Ok(merged) ==> merged == acc,
    decreases other.len(),
{
    if other.len() > 0 {
        let j = choose|j: int| 0 <= j < acc.len() && (#[trigger] acc[j]).1 == other[0].1;
        lemma_first_match_exists(acc, other[0].1, j);
        let rest = other.drop_first();
        assert forall|k: int| 0 <= k < rest.len() implies exists|j: int|
            0 <= j < acc.len() && (#[trigger] acc[j]).1 == (#[trigger] rest[k]).1 by {
            assert(rest[k] == other[k + 1]);
        }
        lemma_merge_adds_nothing_present(acc, rest);
    }
}

/// Merging in one variant whose field the receiver does not hold appends it.
pub proof fn lemma_merge_adds_new_variant(pairs: Seq<(i8, FieldView)>, tag: i8, field: FieldView)
    requires
        forall|j: int| 0 <= j < pairs.len() ==> (#[trigger] pairs[j]).1 != field,
    ensures
        merge_all(pairs, seq![(tag, field)]) == Ok::<Seq<(i8, FieldView)>, TagConflict>(
            pairs.push((tag, field)),
        ),
{
    assert(first_match(pairs, field) is None);
    reveal_with_fuel(merge_all, 2);
}

/// Merging in one variant whose field the receiver holds under another tag
/// fails, and the conflict names both tags.
pub proof fn lemma_merge_detects_conflict(
    pairs: Seq<(i8, FieldView)>,
    j: int,
    tag: i8,
    field: FieldView,
)
    requires
        is_first_match(pairs, field, j),
        pairs[j].0 != tag,
    ensures
        merge_all(pairs, seq![(tag, field)]) == Err::<Seq<(i8, FieldView)>, TagConflict>(
            TagConflict { name: field.name, self_type_id: pairs[j].0, field_type_id: tag },
        ),
{
    let first = choose|first: int| is_first_match(pairs, field, first);
    lemma_first_match_unique(pairs, field, first, j);
}

/// A successful merge keeps the receiver's variants, in their order, at the
/// front of the result.
pub proof fn lemma_merge_keeps_receiver(acc: Seq<(i8, FieldView)>, other: Seq<(i8, FieldView)>)
    ensures
        merge_all(acc, other) matches Ok(merged) ==> acc.len() <= merged.len() && merged.take(
            acc.len() as int,
        ) == acc,
    decreases other.len(),
{
    if other.len() == 0 {
        assert(acc.take(acc.len() as int) =~= acc);
    } else if let Ok(next) = merge_one(acc, other[0].0, other[0].1) {
        lemma_merge_keeps_receiver(next, other.drop_first());
        if let Ok(merged) = merge_all(acc, other) {
            assert(next.take(acc.len() as int) =~= acc);
            assert(merged.take(acc.len() as int) =~= merged.take(next.len() as int).take(
                acc.len() as int,
            ));
        }
    }
}

/// No field occurs twice.
pub open spec fn fields_distinct(pairs: Seq<(i8, FieldView)>) -> bool {
    forall|i: int, j: int|
        0 <= i < j < pairs.len() ==> (#[trigger] pairs[i]).1 != (#[trigger] pairs[j]).1
}

/// A successful merge loses nothing: the result holds every variant of the
/// other union, as it holds every variant of the receiver.
pub proof fn lemma_merge_holds_every_variant(
    acc: Seq<(i8, FieldView)>,
    other: Seq<(i8, FieldView)>,
)
    ensures
        merge_all(acc, other) matches Ok(merged) ==> forall|k: int|
            0 <= k < other.len() ==> exists|j: int|
                0 <= j < merged.len() && #[trigger] merged[j] == #[trigger] other[k],
    decreases other.len(),
{
    if other.len() > 0 {
        if let Ok(merged) = merge_all(acc, other) {
            let rest = other.drop_first();
            let next = merge_one(acc, other[0].0, other[0].1)->Ok_0;
            lemma_merge_holds_every_variant(next, rest);
            lemma_merge_keeps_receiver(next, rest);
            let at = match first_match(acc, other[0].1) {
                Some(j) => j,
                None => acc.len() as int,
            };
            assert(next[at] == other[0]);
            assert(merged.take(next.len() as int)[at] == merged[at]);
            assert forall|k: int| 0 <= k < other.len() implies exists|j: int|
                0 <= j < merged.len() && #[trigger] merged[j] == #[trigger] other[k] by {
                if k == 0 {
                    assert(merged[at] == other[0]);
                } else {
                    assert(other[k] == rest[k - 1]);
                }
            }
        }
    }
}

/// A successful merge repeats no field: where no field occurs twice in the
/// receiver, none occurs twice in the result.
pub proof fn lemma_merge_keeps_fields_distinct(
    acc: Seq<(i8, FieldView)>,
    other: Seq<(i8, FieldView)>,
)
    requires
        fields_distinct(acc),
    ensures
        merge_all(acc, other) matches Ok(merged) ==> fields_distinct(merged),
    decreases other.len(),
{
    if other.len() > 0 {
        if let Ok(next) = merge_one(acc, other[0].0, other[0].1) {
            if first_match(acc, other[0].1) is None {
                assert forall|i: int, j: int| 0 <= i < j < next.len() implies (#[trigger] next[i]).1
                    != (#[trigger] next[j]).1 by {
                    if j < acc.len() {
                        assert(acc[i].1 != acc[j].1);
                    } else if acc[i].1 == other[0].1 {
                        lemma_first_match_exists(acc, other[0].1, i);
                    }
                }
            }
            lemma_merge_keeps_fields_distinct(next, other.drop_first());
        }
    }
}

/// Two unions give no tag to two different fields: where a tag occurs in
/// both, it tags the same field in both.
pub open spec fn tags_agree(a: Seq<(i8, FieldView)>, b: Seq<(i8, FieldView)>) -> bool {
    forall|i: int, k: int|
        0 <= i < a.len() && 0 <= k < b.len() && (#[trigger] a[i]).0 == (#[trigger] b[k]).0
            ==> a[i].1 == b[k].1
}

/// A merge can leave one tag on two fields, but not where the two unions
/// agree on their tags: if no tag occurs twice in either, and none tags
/// different fields in the two, then none occurs twice in the result.
pub proof fn lemma_merge_keeps_tags_unique(
    acc: Seq<(i8, FieldView)>,
    other: Seq<(i8, FieldView)>,
)
    requires
        tags_unique(acc),
        tags_unique(other),
        tags_agree(acc, other),
    ensures
        merge_all(acc, other) matches Ok(merged) ==> tags_unique(merged),
    decreases other.len(),
{
    if other.len() > 0 {
        if let Ok(next) = merge_one(acc, other[0].0, other[0].1) {
            let rest = other.drop_first();
            if first_match(acc, other[0].1) is None {
                assert forall|i: int, j: int| 0 <= i < j < next.len() implies (#[trigger] next[i]).0
                    != (#[trigger] next[j]).0 by {
                    if j < acc.len() {
                        assert(acc[i].0 != acc[j].0);
                    } else if acc[i].0 == other[0].0 {
                        assert(acc[i].1 == other[0].1);
                        lemma_first_match_exists(acc, other[0].1, i);
                    }
                }
            }
            assert forall|i: int, k: int|
                0 <= i < next.len() && 0 <= k < rest.len() && (#[trigger] next[i]).0 == (
                #[trigger] rest[k]).0 implies next[i].1 == rest[k].1 by {
                assert(rest[k] == other[k + 1]);
                if i < acc.len() {
                    assert(acc[i].0 == other[k + 1].0);
                } else {
                    assert(other[0].0 != other[k + 1].0);
                }
            }
            assert forall|i: int, j: int| 0 <= i < j < rest.len() implies (#[trigger] rest[i]).0
                != (#[trigger] rest[j]).0 by {
                assert(other[i + 1].0 != other[j + 1].0);
            }
            lemma_merge_keeps_tags_unique(next, rest);
        }
    }
}

} // verus!

//! Collections of fields: the ordered `Fields` and the tagged `UnionFields`.

use crate::error::ArrowError;
use crate::field::{same_field, Field, FieldRef};
use crate::model::{
    fields_contain, fields_size, first_match, is_first_match, lemma_field_contains_reflexive,
    lemma_fields_contain_reflexive, lemma_fields_size_step, lemma_first_match_unique,
    lemma_union_size_step, merge_all, tagged, tags_unique, type_ids_valid,
    union_contains, union_has_match, union_size, FieldView, TagConflict,
};
use crate::shared::{same_allocation, share};
use crate::text::{append_decimal, same_text};
use std::sync::Arc;
use vstd::prelude::*;
use vstd::std_specs::cmp::PartialEqSpecImpl;
use vstd::std_specs::convert::FromSpecImpl;
use vstd::std_specs::slice::into_iter_elts;
use vstd::string::StringExecFns;

verus! {

/// A cheaply cloneable, immutable, ordered collection of fields. The order
/// is positional: the field at a position describes the column at that
/// position.
#[derive(Debug, Hash, PartialOrd, Ord)]
pub struct Fields(Arc<Vec<FieldRef>>);

impl View for Fields {
    type V = Seq<FieldView>;

    open spec fn view(&self) -> Seq<FieldView> {
        self.model()
    }
}

impl DeepView for Fields {
    type V = Seq<FieldView>;

    open spec fn deep_view(&self) -> Seq<FieldView> {
        self.model()
    }
}

impl Fields {
    /// The views of the fields, in stored order.
    pub closed spec fn model(&self) -> Seq<FieldView>
        decreases self,
    {
        Seq::new(
            self.0.len() as nat,
            |i: int|
                if 0 <= i < self.0.len() {
                    (*self.0[i]).model()
                } else {
                    arbitrary()
                },
        )
    }

    /// The collection that holds the given handles.
    fn of(handles: Vec<FieldRef>) -> (r: Fields)
        ensures
            r@ == handles.deep_view(),
    {
        let r = Fields(Arc::new(handles));
        r
    }

    /// A collection without fields.
    pub fn empty() -> (r: Fields)
        ensures
            r@ == Seq::<FieldView>::empty(),
    {
        let r = Fields::of(Vec::new());
        r
    }

    /// The byte footprint of the collection: the footprint of each field,
    /// plus one shared handle per slot.
    pub fn size(&self) -> (r: usize)
        requires
            fields_size(self@) <= usize::MAX,
        ensures
            r == fields_size(self@),
        decreases self,
    {
        let n = self.0.len();
        let mut total: usize = 0;
        let mut i: usize = 0;
        while i < n
            invariant
                n == self.0.len(),
                i <= n,
                total == fields_size(self@.take(i as int)),
                fields_size(self@) <= usize::MAX,
            decreases n - i,
        {
            proof {
                lemma_fields_size_step(self@, i as int);
            }
            total = total + (self.0[i].size() + core::mem::size_of::<FieldRef>());
            i += 1;
        }
        assert(self@.take(n as int) =~= self@);
        total
    }

    /// Searches the fields in stored order for one with exactly this name,
    /// and returns the first, with its position.
    pub fn find(&self, name: &str) -> (r: Option<(usize, &FieldRef)>)
        ensures
            match r {
                Some((i, field)) => {
                    &&& i < self@.len()
                    &&& field@ == self@[i as int]
                    &&& self@[i as int].name == name@
                    &&& forall|k: int| 0 <= k < i ==> (#[trigger] self@[k]).name != name@
                },
                None => forall|k: int| 0 <= k < self@.len() ==> (#[trigger] self@[k]).name != name@,
            },
    {
        let n = self.0.len();
        let mut i: usize = 0;
        while i < n
            invariant
                n == self.0.len(),
                i <= n,
                forall|k: int| 0 <= k < i ==> (#[trigger] self@[k]).name != name@,
            decreases n - i,
        {
            let field = &self.0[i];
            if same_text(field.name().as_str(), name) {
                return Some((i, field));
            }
            i += 1;
        }
        None
    }

    /// Whether both collections hold the same fields in the same order.
    pub(crate) fn equals(&self, other: &Fields) -> (r: bool)
        ensures
            r == (self@ == other@),
        decreases self,
    {
        if same_allocation(&self.0, &other.0) {
            return true;
        }
        let n = self.0.len();
        if n != other.0.len() {
            assert(self@.len() != other@.len());
            return false;
        }
        let mut i: usize = 0;
        while i < n
            invariant
                n == self.0.len(),
                n == other.0.len(),
                i <= n,
                forall|k: int| 0 <= k < i ==> self@[k] == other@[k],
            decreases n - i,
        {
            let a = &self.0[i];
            let b = &other.0[i];
            if !(same_allocation(a, b) || a.equals(b)) {
                assert(self@[i as int] != other@[i as int]);
                return false;
            }
            i += 1;
        }
        assert(self@ =~= other@);
        true
    }

    /// Whether `self` is a structural superset of `other`: both have the
    /// same number of fields, and at every position the field of `self`
    /// contains the field of `other`. Any record that conforms to `other`
    /// then conforms to `self`.
    pub fn contains(&self, other: &Fields) -> (r: bool)
        ensures
            r == fields_contain(self@, other@),
        decreases self,
    {
        if same_allocation(&self.0, &other.0) {
            proof {
                lemma_fields_contain_reflexive(self@);
            }
            return true;
        }
        let n = self.0.len();
        if n != other.0.len() {
            return false;
        }
        let mut i: usize = 0;
        while i < n
            invariant
                n == self.0.len(),
                n == other.0.len(),
                i <= n,
                forall|k: int| 0 <= k < i ==> (#[trigger] self@[k]).contains(other@[k]),
            decreases n - i,
        {
            let a = &self.0[i];
            let b = &other.0[i];
            if same_allocation(a, b) {
                proof {
                    lemma_field_contains_reflexive(self@[i as int]);
                }
            } else if !a.contains(b) {
                return false;
            }
            i += 1;
        }
        true
    }
}

impl Default for Fields {
    /// The collection without fields.
    fn default() -> (r: Fields)
        ensures
            r@ == Seq::<FieldView>::empty(),
    {
        Fields::empty()
    }
}

impl Clone for Fields {
    /// Another handle to the same fields.
    fn clone(&self) -> (r: Fields)
        ensures
            r@ == self@,
    {
        Fields(share(&self.0))
    }
}

impl FromSpecImpl<Vec<Field>> for Fields {
    open spec fn obeys_from_spec() -> bool {
        false
    }

    open spec fn from_spec(value: Vec<Field>) -> Fields {
        arbitrary()
    }
}

/// The collection of the given fields, each put behind a handle of its own.
impl From<Vec<Field>> for Fields {
    fn from(value: Vec<Field>) -> (r: Fields)
        ensures
            r@ == value.deep_view(),
    {
        let mut handles: Vec<FieldRef> = Vec::new();
        for field in it: value
            invariant
                it.seq() == value@,
                handles.len() == it.index(),
                forall|k: int| 0 <= k < handles.len() ==> (#[trigger] handles[k])@ == value@[k]@,
        {
            handles.push(Arc::new(field));
        }
        Fields::of(handles)
    }
}

impl FromSpecImpl<Vec<FieldRef>> for Fields {
    open spec fn obeys_from_spec() -> bool {
        false
    }

    open spec fn from_spec(value: Vec<FieldRef>) -> Fields {
        arbitrary()
    }
}

/// The collection of the fields behind the given handles.
impl From<Vec<FieldRef>> for Fields {
    fn from(value: Vec<FieldRef>) -> (r: Fields)
        ensures
            r@ == value.deep_view(),
    {
        Fields::of(value)
    }
}

impl<'a> FromSpecImpl<&'a [FieldRef]> for Fields {
    open spec fn obeys_from_spec() -> bool {
        false
    }

    open spec fn from_spec(value: &'a [FieldRef]) -> Fields {
        arbitrary()
    }
}

/// The collection of the fields behind the given handles, which it shares.
impl<'a> From<&'a [FieldRef]> for Fields {
    fn from(value: &'a [FieldRef]) -> (r: Fields)
        ensures
            r@ == value.deep_view(),
    {
        let n = value.len();
        let mut handles: Vec<FieldRef> = Vec::new();
        let mut i: usize = 0;
        while i < n
            invariant
                n == value@.len(),
                i <= n,
                handles.len() == i,
                forall|k: int| 0 <= k < i ==> (#[trigger] handles[k])@ == value@[k]@,
            decreases n - i,
        {
            handles.push(share(&value[i]));
            i += 1;
        }
        Fields::of(handles)
    }
}

impl<const N: usize> FromSpecImpl<[FieldRef; N]> for Fields {
    open spec fn obeys_from_spec() -> bool {
        false
    }

    open spec fn from_spec(value: [FieldRef; N]) -> Fields {
        arbitrary()
    }
}

/// The collection of the fields behind the given handles.
impl<const N: usize> From<[FieldRef; N]> for Fields {
    fn from(value: [FieldRef; N]) -> (r: Fields)
        ensures
            r@ == value.deep_view(),
    {
        let mut handles: Vec<FieldRef> = Vec::new();
        let mut i: usize = 0;
        while i < N
            invariant
                i <= N,
                handles.len() == i,
                forall|k: int| 0 <= k < i ==> (#[trigger] handles[k])@ == value@[k]@,
            decreases N - i,
        {
            handles.push(share(&value[i]));
            i += 1;
        }
        Fields::of(handles)
    }
}

/// Whatever collection `contains` is asked about against itself, the
/// answer is yes.
pub proof fn lemma_contains_itself(fields: Fields, answer: bool)
    requires
        call_ensures(Fields::contains, (&fields, &fields), answer),
    ensures
        answer,
{
    lemma_fields_contain_reflexive(fields@);
}

/// Whatever two collections of different lengths `contains` is asked
/// about, the answer is no.
pub proof fn lemma_contains_needs_equal_len(a: Fields, b: Fields, answer: bool)
    requires
        a@.len() != b@.len(),
        call_ensures(Fields::contains, (&a, &b), answer),
    ensures
        !answer,
{
}

/// A collection made from owned fields and one made from handles that wrap
/// the same fields are equal.
pub proof fn lemma_owned_and_shared_agree(
    owned: Vec<Field>,
    shared: Vec<FieldRef>,
    from_owned: Fields,
    from_shared: Fields,
)
    requires
        shared@.len() == owned@.len(),
        forall|i: int| 0 <= i < owned@.len() ==> *(#[trigger] shared@[i]) == owned@[i],
        call_ensures(<Fields as From<Vec<Field>>>::from, (owned,), from_owned),
        call_ensures(<Fields as From<Vec<FieldRef>>>::from, (shared,), from_shared),
    ensures
        from_owned@ == from_shared@,
{
}

impl core::ops::Deref for Fields {
    type Target = [FieldRef];

    /// The handles, in stored order.
    fn deref(&self) -> (r: &[FieldRef])
        ensures
            r.deep_view() == self@,
    {
        let r = self.0.as_slice();
        r
    }
}

impl<'a> IntoIterator for &'a Fields {
    type Item = &'a FieldRef;

    type IntoIter = core::slice::Iter<'a, FieldRef>;

    /// An iterator over the handles, in stored order.
    fn into_iter(self) -> (r: core::slice::Iter<'a, FieldRef>)
        ensures
            into_iter_elts(r).len() == self@.len(),
            forall|i: int| 0 <= i < self@.len() ==> (#[trigger] into_iter_elts(r)[i])@ == self@[i],
    {
        broadcast use vstd::std_specs::slice::axiom_spec_slice_iter;

        let r = self.0.as_slice().iter();
        r
    }
}

impl PartialEqSpecImpl for Fields {
    open spec fn obeys_eq_spec() -> bool {
        true
    }

    open spec fn eq_spec(&self, other: &Fields) -> bool {
        self@ == other@
    }
}

/// Two collections are equal when they hold the same fields in the same order.
impl PartialEq for Fields {
    fn eq(&self, other: &Fields) -> (r: bool) {
        self.equals(other)
    }
}

impl Eq for Fields {}

/// A cheaply cloneable, immutable collection of union variants: fields,
/// each under the tag that selects it.
#[derive(Debug, Hash, PartialOrd, Ord)]
pub struct UnionFields(Arc<Vec<(i8, FieldRef)>>);

impl View for UnionFields {
    type V = Seq<(i8, FieldView)>;

    open spec fn view(&self) -> Seq<(i8, FieldView)> {
        self.model()
    }
}

impl DeepView for UnionFields {
    type V = Seq<(i8, FieldView)>;

    open spec fn deep_view(&self) -> Seq<(i8, FieldView)> {
        self.model()
    }
}

/// Whether the bit for `tag` is set in a presence mask.
spec fn has_bit(set: u128, tag: u32) -> bool {
    set & (1u128 << tag) != 0
}

/// The empty mask has no bit set.
proof fn lemma_no_bit_in_zero(tag: u32)
    requires
        tag < 128,
    ensures
        !has_bit(0, tag),
{
    assert(0u128 & (1u128 << tag) == 0) by (bit_vector);
}

/// Setting the bit for `tag` changes that bit and no other.
proof fn lemma_bit_after_set(set: u128, tag: u32, other: u32)
    requires
        tag < 128,
        other < 128,
    ensures
        has_bit(set | (1u128 << tag), other) == (has_bit(set, other) || other == tag),
{
    assert(((set | (1u128 << tag)) & (1u128 << other) != 0) == ((set & (1u128 << other) != 0)
        || other == tag)) by (bit_vector)
        requires
            tag < 128,
            other < 128,
    ;
}

/// The description that a schema error carries for a tag conflict.
fn conflict_message(name: &str, self_type_id: i8, field_type_id: i8) -> (s: String)
    ensures
        s@ == (TagConflict { name: name@, self_type_id, field_type_id }).text(),
{
    let mut s = String::from_str("Fail to merge schema field '");
    s.append(name);
    s.append("' because the self_type_id = ");
    append_decimal(&mut s, self_type_id);
    s.append(" does not equal field_type_id = ");
    append_decimal(&mut s, field_type_id);
    s
}

impl UnionFields {
    /// The tags with the views of their fields, in stored order.
    pub closed spec fn model(&self) -> Seq<(i8, FieldView)>
        decreases self,
    {
        Seq::new(
            self.0.len() as nat,
            |i: int|
                if 0 <= i < self.0.len() {
                    (self.0[i].0, (*self.0[i].1).model())
                } else {
                    arbitrary()
                },
        )
    }

    /// The collection that holds the given variants.
    fn of(pairs: Vec<(i8, FieldRef)>) -> (r: UnionFields)
        ensures
            r@ == pairs.deep_view(),
    {
        let r = UnionFields(Arc::new(pairs));
        r
    }

    /// A collection without variants.
    pub fn empty() -> (r: UnionFields)
        ensures
            r@ == Seq::<(i8, FieldView)>::empty(),
    {
        let r = UnionFields::of(Vec::new());
        r
    }

    /// Whether the tags can tag the variants of one union: each is one of
    /// 0..=127 and none occurs twice. One bit of a 128-bit mask records
    /// each tag seen.
    pub fn valid_type_ids(type_ids: &[i8]) -> (ok: bool)
        ensures
            ok == type_ids_valid(type_ids@),
    {
        let n = type_ids.len();
        let mut set: u128 = 0;
        let mut i: usize = 0;
        proof {
            assert forall|tag: u32| tag < 128 implies !has_bit(0, tag) by {
                lemma_no_bit_in_zero(tag);
            }
        }
        while i < n
            invariant
                n == type_ids@.len(),
                i <= n,
                type_ids_valid(type_ids@.take(i as int)),
                forall|tag: u32|
                    tag < 128 ==> (#[trigger] has_bit(set, tag) <==> exists|k: int|
                        0 <= k < i && #[trigger] type_ids@[k] == tag),
            decreases n - i,
        {
            let idx = type_ids[i];
            if idx < 0 {
                return false;
            }
            let tag = idx as u32;
            let mask = 1u128 << tag;
            if (set & mask) != 0 {
                assert(has_bit(set, tag));
                return false;
            }
            proof {
                assert(!has_bit(set, tag));
                assert forall|other: u32| other < 128 implies (#[trigger] has_bit(
                    set | mask,
                    other,
                ) <==> exists|k: int| 0 <= k < i + 1 && #[trigger] type_ids@[k] == other) by {
                    lemma_bit_after_set(set, tag, other);
                }
                assert(type_ids_valid(type_ids@.take(i + 1)));
            }
            set = set | mask;
            i += 1;
        }
        assert(type_ids@.take(n as int) =~= type_ids@);
        true
    }

    /// The union whose variants are the given fields under the given tags,
    /// paired position by position as far as both reach. Each field is put
    /// behind a handle of its own.
    ///
    /// The tags must be valid for one union. A caller that gives a tag twice
    /// or a tag below 0 has a defect, and the call does not return.
    pub fn new(type_ids: Vec<i8>, fields: Vec<Field>) -> (r: UnionFields)
        requires
            type_ids_valid(type_ids@),
        ensures
            r@ == tagged(type_ids@, fields.deep_view()),
            tags_unique(r@),
    {
        if !UnionFields::valid_type_ids(type_ids.as_slice()) {
            vstd::pervasive::unreached()
        }
        let mut fields = fields;
        fields.truncate(type_ids.len());
        let mut pairs: Vec<(i8, FieldRef)> = Vec::new();
        for field in it: fields
            invariant
                it.seq() == fields@,
                fields@.len() <= type_ids@.len(),
                pairs.len() == it.index(),
                forall|k: int|
                    0 <= k < pairs.len() ==> (#[trigger] pairs[k]).0 == type_ids@[k] && pairs[k].1@
                        == fields@[k]@,
        {
            pairs.push((type_ids[pairs.len()], Arc::new(field)));
        }
        UnionFields::of(pairs)
    }

    /// The byte footprint of the collection: the footprint of each field,
    /// plus one tagged shared handle per variant.
    pub fn size(&self) -> (r: usize)
        requires
            union_size(self@) <= usize::MAX,
        ensures
            r == union_size(self@),
        decreases self,
    {
        let n = self.0.len();
        let mut total: usize = 0;
        let mut i: usize = 0;
        while i < n
            invariant
                n == self.0.len(),
                i <= n,
                total == union_size(self@.take(i as int)),
                union_size(self@) <= usize::MAX,
            decreases n - i,
        {
            proof {
                lemma_union_size_step(self@, i as int);
            }
            total = total + (self.0[i].1.size() + core::mem::size_of::<(i8, FieldRef)>());
            i += 1;
        }
        assert(self@.take(n as int) =~= self@);
        total
    }

    /// The number of variants.
    pub fn len(&self) -> (r: usize)
        ensures
            r == self@.len(),
    {
        self.0.len()
    }

    /// Whether there is no variant.
    pub fn is_empty(&self) -> (r: bool)
        ensures
            r == (self@.len() == 0),
    {
        self.0.len() == 0
    }

    /// The variants, each as its tag and a handle to its field. Every
    /// variant comes once; in which order is not part of the contract.
    pub fn iter(&self) -> (r: Vec<(i8, &FieldRef)>)
        ensures
            r@.len() == self@.len(),
            r.deep_view().to_multiset() == self@.to_multiset(),
    {
        let n = self.0.len();
        let mut out: Vec<(i8, &FieldRef)> = Vec::new();
        let mut i: usize = 0;
        while i < n
            invariant
                n == self.0.len(),
                i <= n,
                out.len() == i,
                forall|k: int| 0 <= k < i ==> (#[trigger] out[k]).0 == self@[k].0 && out[k].1@ == self@[k].1,
            decreases n - i,
        {
            out.push((self.0[i].0, &self.0[i].1));
            i += 1;
        }
        assert(out.deep_view() =~= self@);
        out
    }

    /// Folds the variants of `other` into `self`, one after the other.
    ///
    /// A field of `other` that `self` holds already must have the same tag
    /// in both, and then changes nothing. A field that `self` does not hold
    /// is appended under the tag it has in `other`; that the tag is not in
    /// use in `self` is not looked at, so the result can hold one tag twice.
    ///
    /// Fails on the first field that the two hold under different tags,
    /// with a schema error that names the field and both tags, and leaves
    /// `self` as it was.
    pub fn try_merge(&mut self, other: &UnionFields) -> (res: Result<(), ArrowError>)
        ensures
            match merge_all(old(self)@, other@) {
                Ok(merged) => res is Ok && final(self)@ == merged,
                Err(conflict) => {
                    &&& final(self)@ == old(self)@
                    &&& res matches Err(ArrowError::SchemaError(desc))
                    &&& desc@ == conflict.text()
                },
            },
    {
        let n = self.0.len();
        let mut output: Vec<(i8, FieldRef)> = Vec::new();
        let mut k: usize = 0;
        while k < n
            invariant
                n == self.0.len(),
                k <= n,
                output.len() == k,
                forall|j: int| 0 <= j < k ==> (#[trigger] output[j]).0 == self@[j].0 && output[j].1@ == self@[j].1,
            decreases n - k,
        {
            output.push((self.0[k].0, share(&self.0[k].1)));
            k += 1;
        }
        assert(output.deep_view() =~= self@);
        let m = other.0.len();
        let mut i: usize = 0;
        assert(other@.skip(0) =~= other@);
        while i < m
            invariant
                m == other.0.len(),
                i <= m,
                *self == *old(self),
                merge_all(old(self)@, other@) == merge_all(output.deep_view(), other@.skip(i as int)),
            decreases m - i,
        {
            let field_type_id = other.0[i].0;
            let from_field = &other.0[i].1;
            let ghost acc = output.deep_view();
            let ghost rest = other@.skip(i as int);
            assert(rest.drop_first() =~= other@.skip(i + 1));
            let mut is_new_field = true;
            let mut j: usize = 0;
            while j < output.len() && is_new_field
                invariant
                    j <= output.len(),
                    acc == output.deep_view(),
                    is_new_field ==> forall|k: int| 0 <= k < j ==> (#[trigger] acc[k]).1 != from_field@,
                    !is_new_field ==> j < output.len() && is_first_match(acc, from_field@, j as int)
                        && acc[j as int].0 == field_type_id,
                    *self == *old(self),
                    merge_all(old(self)@, other@) == merge_all(acc, rest),
                    rest.len() > 0,
                    rest[0] == (field_type_id, from_field@),
                decreases output.len() - j + if is_new_field { 1int } else { 0int },
            {
                let self_field = &output[j].1;
                if same_field(from_field, self_field) {
                    let self_type_id = output[j].0;
                    proof {
                        assert(is_first_match(acc, from_field@, j as int));
                        let first = choose|first: int| is_first_match(acc, from_field@, first);
                        lemma_first_match_unique(acc, from_field@, first, j as int);
                    }
                    if self_type_id != field_type_id {
                        return Err(
                            ArrowError::SchemaError(
                                conflict_message(
                                    self_field.name().as_str(),
                                    self_type_id,
                                    field_type_id,
                                ),
                            ),
                        );
                    }
                    is_new_field = false;
                } else {
                    j += 1;
                }
            }
            if is_new_field {
                output.push((field_type_id, share(from_field)));
                assert(output.deep_view() =~= acc.push((field_type_id, from_field@)));
            } else {
                proof {
                    let first = choose|first: int| is_first_match(acc, from_field@, first);
                    lemma_first_match_unique(acc, from_field@, first, j as int);
                }
            }
            i += 1;
        }
        *self = UnionFields::of(output);
        Ok(())
    }

    /// Whether both collections hold the same variants in the same stored
    /// order.
    pub(crate) fn equals(&self, other: &UnionFields) -> (r: bool)
        ensures
            r == (self@ == other@),
        decreases self,
    {
        if same_allocation(&self.0, &other.0) {
            return true;
        }
        let n = self.0.len();
        if n != other.0.len() {
            assert(self@.len() != other@.len());
            return false;
        }
        let mut i: usize = 0;
        while i < n
            invariant
                n == self.0.len(),
                n == other.0.len(),
                i <= n,
                forall|k: int| 0 <= k < i ==> self@[k] == other@[k],
            decreases n - i,
        {
            let a = &self.0[i].1;
            let b = &other.0[i].1;
            if self.0[i].0 != other.0[i].0 || !(same_allocation(a, b) || a.equals(b)) {
                assert(self@[i as int] != other@[i as int]);
                return false;
            }
            i += 1;
        }
        assert(self@ =~= other@);
        true
    }

    /// Whether `self` is a structural superset of `other`: every variant of
    /// `self` has a variant of `other` under the same tag whose field it
    /// contains.
    pub fn contains(&self, other: &UnionFields) -> (r: bool)
        ensures
            r == union_contains(self@, other@),
        decreases self,
    {
        let n = self.0.len();
        let m = other.0.len();
        let mut i: usize = 0;
        while i < n
            invariant
                n == self.0.len(),
                m == other.0.len(),
                i <= n,
                forall|k: int|
                    0 <= k < i ==> union_has_match(other@, (#[trigger] self@[k]).0, self@[k].1),
            decreases n - i,
        {
            let ghost tag = self@[i as int].0;
            let ghost field = self@[i as int].1;
            let mut found = false;
            let mut j: usize = 0;
            while j < m && !found
                invariant
                    n == self.0.len(),
                    m == other.0.len(),
                    i < n,
                    j <= m,
                    tag == self@[i as int].0,
                    field == self@[i as int].1,
                    found ==> union_has_match(other@, tag, field),
                    !found ==> forall|k: int|
                        0 <= k < j ==> !((#[trigger] other@[k]).0 == tag && field.contains(
                            other@[k].1,
                        )),
                decreases m - j + if found { 0int } else { 1int },
            {
                if other.0[j].0 == self.0[i].0 && self.0[i].1.contains(&other.0[j].1) {
                    found = true;
                } else {
                    assert(!(other@[j as int].0 == tag && field.contains(other@[j as int].1)));
                    j += 1;
                }
            }
            if !found {
                return false;
            }
            i += 1;
        }
        true
    }
}

impl Clone for UnionFields {
    /// Another handle to the same variants.
    fn clone(&self) -> (r: UnionFields)
        ensures
            r@ == self@,
    {
        UnionFields(share(&self.0))
    }
}

impl FromSpecImpl<Vec<(i8, FieldRef)>> for UnionFields {
    open spec fn obeys_from_spec() -> bool {
        false
    }

    open spec fn from_spec(value: Vec<(i8, FieldRef)>) -> UnionFields {
        arbitrary()
    }
}

/// The collection of the given variants, as they come: the tags are not
/// looked at.
impl From<Vec<(i8, FieldRef)>> for UnionFields {
    fn from(value: Vec<(i8, FieldRef)>) -> (r: UnionFields)
        ensures
            r@ == value.deep_view(),
    {
        UnionFields::of(value)
    }
}

impl PartialEqSpecImpl for UnionFields {
    open spec fn obeys_eq_spec() -> bool {
        true
    }

    open spec fn eq_spec(&self, other: &UnionFields) -> bool {
        self@ == other@
    }
}

/// Two collections are equal when they hold the same variants in the same
/// stored order.
impl PartialEq for UnionFields {
    fn eq(&self, other: &UnionFields) -> (r: bool) {
        self.equals(other)
    }
}

impl Eq for UnionFields {}

} // verus!

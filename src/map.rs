//! Maps: a level's geometry and metadata, decoded from the map-definition language.

use crate::format::udmf::blocks::{
    Entry, EntryView, entry_at, entry_view, fields_view, key_at, lemma_entry_prefix,
};
use crate::format::udmf::de::{Error, Parser, result_view};
use crate::format::udmf::syntax::{
    ErrorKindView, Run, ends_line, lemma_space_tail, lemma_span_end_bounds, lemma_token_prefix,
    span_end, token_at,
};
use crate::format::udmf::{Decimal, DecimalView, Shape, Value, ValueView, accepts, shape_of};
use crate::text::{chars_of, push_char, str_equal};
use vstd::prelude::*;

verus! {

// ----------------------------------------------------------------------------------------
// Extras
// ----------------------------------------------------------------------------------------

/// The mapping that a list of assignments makes: a later assignment to a key replaces an
/// earlier one.
pub open spec fn assignments_map(s: Seq<(Seq<char>, ValueView)>) -> Map<Seq<char>, ValueView>
    decreases s.len(),
{
    if s.len() == 0 {
        Map::empty()
    } else {
        assignments_map(s.drop_last()).insert(s.last().0, s.last().1)
    }
}

/// No key appears twice.
pub open spec fn unique_keys(s: Seq<(Seq<char>, ValueView)>) -> bool {
    forall|i: int, j: int| 0 <= i < j < s.len() ==> s[i].0 != s[j].0
}

proof fn lemma_assignments_map_dom(s: Seq<(Seq<char>, ValueView)>, k: Seq<char>)
    ensures
        assignments_map(s).dom().contains(k) <==> exists|i: int| 0 <= i < s.len() && s[i].0 == k,
    decreases s.len(),
{
    if s.len() > 0 {
        let rest = s.drop_last();
        lemma_assignments_map_dom(rest, k);
        if exists|i: int| 0 <= i < rest.len() && rest[i].0 == k {
            let i = choose|i: int| 0 <= i < rest.len() && rest[i].0 == k;
            assert(s[i].0 == k);
        }
        if exists|i: int| 0 <= i < s.len() && s[i].0 == k {
            let i = choose|i: int| 0 <= i < s.len() && s[i].0 == k;
            if i < s.len() - 1 {
                assert(rest[i].0 == k);
            }
        }
    }
}

proof fn lemma_assignments_map_at(s: Seq<(Seq<char>, ValueView)>, i: int)
    requires
        unique_keys(s),
        0 <= i < s.len(),
    ensures
        assignments_map(s).dom().contains(s[i].0),
        assignments_map(s)[s[i].0] == s[i].1,
    decreases s.len(),
{
    let rest = s.drop_last();
    if i < s.len() - 1 {
        assert(unique_keys(rest));
        assert(rest[i] == s[i]);
        lemma_assignments_map_at(rest, i);
    }
}

proof fn lemma_assignments_map_update(s: Seq<(Seq<char>, ValueView)>, i: int, v: ValueView)
    requires
        unique_keys(s),
        0 <= i < s.len(),
    ensures
        assignments_map(s.update(i, (s[i].0, v))) == assignments_map(s).insert(s[i].0, v),
    decreases s.len(),
{
    let k = s[i].0;
    let t = s.update(i, (k, v));
    let rest = s.drop_last();
    if i == s.len() - 1 {
        assert(t.drop_last() =~= rest);
        assert(assignments_map(t) =~= assignments_map(s).insert(k, v));
    } else {
        assert(unique_keys(rest));
        assert(t.drop_last() =~= rest.update(i, (k, v)));
        lemma_assignments_map_update(rest, i, v);
        assert(s.last().0 != k);
        assert(assignments_map(t) =~= assignments_map(s).insert(k, v));
    }
}

/// Fields that are not part of a record's fixed schema, by name. Each name appears once.
#[derive(Debug)]
pub struct Extras {
    entries: Vec<(String, Value)>,
}

impl View for Extras {
    type V = Map<Seq<char>, ValueView>;

    closed spec fn view(&self) -> Map<Seq<char>, ValueView> {
        assignments_map(fields_view(self.entries@))
    }
}

impl Extras {
    #[verifier::type_invariant]
    spec fn inv(&self) -> bool {
        unique_keys(fields_view(self.entries@))
    }

    /// An empty mapping.
    pub fn new() -> (r: Extras)
        ensures
            r@ == Map::<Seq<char>, ValueView>::empty(),
    {
        let entries: Vec<(String, Value)> = Vec::new();
        assert(fields_view(entries@) =~= Seq::empty());
        Extras { entries }
    }

    /// Sets `key` to `value`, replacing what it held.
    pub fn insert(&mut self, key: String, value: Value)
        ensures
            final(self)@ == old(self)@.insert(key@, value@),
    {
        let mut taken = Extras::new();
        core::mem::swap(self, &mut taken);
        proof {
            use_type_invariant(&taken);
        }
        let Extras { mut entries } = taken;
        let ghost before = fields_view(entries@);
        let mut i: usize = 0;
        while i < entries.len()
            invariant
                before == fields_view(entries@),
                old(self)@ == assignments_map(before),
                unique_keys(before),
                i <= entries@.len(),
                forall|k: int| 0 <= k < i ==> before[k].0 != key@,
            decreases entries@.len() - i,
        {
            if str_equal(entries[i].0.as_str(), key.as_str()) {
                let ghost kv = (key@, value@);
                assert(kv == (before[i as int].0, value@));
                entries.set(i, (key, value));
                proof {
                    assert(fields_view(entries@) =~= before.update(i as int, kv));
                    lemma_assignments_map_update(before, i as int, value@);
                    assert forall|a: int, b: int|
                        0 <= a < b < fields_view(entries@).len() implies fields_view(
                        entries@,
                    )[a].0 != fields_view(entries@)[b].0 by {
                        assert(fields_view(entries@)[a].0 == before[a].0);
                        assert(fields_view(entries@)[b].0 == before[b].0);
                    }
                }
                *self = Extras { entries };
                return;
            }
            i = i + 1;
        }
        let ghost kv = (key@, value@);
        entries.push((key, value));
        proof {
            assert(fields_view(entries@) =~= before.push(kv));
            assert(fields_view(entries@).drop_last() =~= before);
            assert forall|a: int, b: int|
                0 <= a < b < fields_view(entries@).len() implies fields_view(entries@)[a].0
                != fields_view(entries@)[b].0 by {
                if b < before.len() {
                    assert(fields_view(entries@)[a] == before[a]);
                    assert(fields_view(entries@)[b] == before[b]);
                } else {
                    assert(fields_view(entries@)[a] == before[a]);
                }
            }
        }
        *self = Extras { entries };
    }

    /// The value of `key`, if it has one.
    pub fn get(&self, key: &str) -> (r: Option<&Value>)
        ensures
            self@.dom().contains(key@) ==> (r matches Some(v) && v@ == self@[key@]),
            !self@.dom().contains(key@) ==> r is None,
    {
        proof {
            use_type_invariant(self);
        }
        let ghost f = fields_view(self.entries@);
        let mut i: usize = 0;
        while i < self.entries.len()
            invariant
                f == fields_view(self.entries@),
                unique_keys(f),
                i <= self.entries@.len(),
                forall|k: int| 0 <= k < i ==> f[k].0 != key@,
            decreases self.entries@.len() - i,
        {
            if str_equal(self.entries[i].0.as_str(), key) {
                proof {
                    lemma_assignments_map_at(f, i as int);
                }
                return Some(&self.entries[i].1);
            }
            i = i + 1;
        }
        proof {
            lemma_assignments_map_dom(f, key@);
        }
        None
    }

    /// How many names the mapping holds.
    pub fn len(&self) -> (r: usize)
        ensures
            r == self@.dom().len(),
    {
        proof {
            use_type_invariant(self);
            lemma_unique_len(fields_view(self.entries@));
        }
        self.entries.len()
    }

    /// The names and their values, in no particular order.
    pub fn entries(&self) -> (r: &Vec<(String, Value)>)
        ensures
            r@.len() == self@.dom().len(),
            forall|i: int|
                0 <= i < r@.len() ==> self@.dom().contains(#[trigger] r@[i].0@) && self@[r@[i].0@]
                    == r@[i].1@,
    {
        proof {
            use_type_invariant(self);
            lemma_unique_len(fields_view(self.entries@));
            assert forall|i: int| 0 <= i < self.entries@.len() implies self@.dom().contains(
                #[trigger] self.entries@[i].0@,
            ) && self@[self.entries@[i].0@] == self.entries@[i].1@ by {
                lemma_assignments_map_at(fields_view(self.entries@), i);
            }
        }
        &self.entries
    }
}

proof fn lemma_unique_len(s: Seq<(Seq<char>, ValueView)>)
    requires
        unique_keys(s),
    ensures
        assignments_map(s).dom().len() == s.len(),
        assignments_map(s).dom().finite(),
    decreases s.len(),
{
    if s.len() > 0 {
        let rest = s.drop_last();
        assert(unique_keys(rest));
        lemma_unique_len(rest);
        lemma_assignments_map_dom(rest, s.last().0);
        if assignments_map(rest).dom().contains(s.last().0) {
            let i = choose|i: int| 0 <= i < rest.len() && rest[i].0 == s.last().0;
            assert(s[i].0 == s[s.len() - 1].0);
        }
    }
}

// ----------------------------------------------------------------------------------------
// Decoding a block against a fixed schema
// ----------------------------------------------------------------------------------------

/// One field of a record's fixed schema: its name in the text, the shape of its value, and
/// whether it must be given.
#[derive(Clone, Copy, Debug)]
pub struct FieldSpec {
    pub name: &'static str,
    pub shape: Shape,
    pub required: bool,
}

/// A [`FieldSpec`] as a mathematical value.
pub struct FieldView {
    pub name: Seq<char>,
    pub shape: Shape,
    pub required: bool,
}

impl View for FieldSpec {
    type V = FieldView;

    open spec fn view(&self) -> FieldView {
        FieldView { name: self.name@, shape: self.shape, required: self.required }
    }
}

pub open spec fn schema_view(s: Seq<FieldSpec>) -> Seq<FieldView> {
    s.map_values(|f: FieldSpec| f@)
}

/// What decoding has gathered: one slot per schema field, and the fields that are not in
/// the schema.
pub struct Decoded {
    pub slots: Seq<Option<ValueView>>,
    pub extras: Map<Seq<char>, ValueView>,
}

/// The index of the schema field named `name`, or the schema's length where none is.
pub open spec fn find_field(schema: Seq<FieldView>, name: Seq<char>) -> int
    decreases schema.len(),
{
    if schema.len() == 0 {
        0
    } else if find_field(schema.drop_last(), name) < schema.len() - 1 {
        find_field(schema.drop_last(), name)
    } else if schema.last().name == name {
        schema.len() - 1
    } else {
        schema.len() as int
    }
}

/// Takes one assignment: a schema field may be given once, with a value of its shape;
/// any other name goes to the extras, where a later value replaces an earlier one.
pub open spec fn decode_step(schema: Seq<FieldView>, st: Decoded, kv: (Seq<char>, ValueView)) -> Result<
    Decoded,
    ErrorKindView,
> {
    let i = find_field(schema, kv.0);
    if i < schema.len() {
        if st.slots[i] is Some {
            Err(ErrorKindView::DuplicateField(schema[i].name))
        } else if !accepts(schema[i].shape, shape_of(kv.1)) {
            Err(ErrorKindView::InvalidType { expected: schema[i].shape, found: shape_of(kv.1) })
        } else {
            Ok(Decoded { slots: st.slots.update(i, Some(kv.1)), extras: st.extras })
        }
    } else {
        Ok(Decoded { slots: st.slots, extras: st.extras.insert(kv.0, kv.1) })
    }
}

/// Takes the first `n` assignments, in order; the first failure ends the decoding.
pub open spec fn decode_prefix(
    schema: Seq<FieldView>,
    fields: Seq<(Seq<char>, ValueView)>,
    n: nat,
) -> Result<Decoded, ErrorKindView>
    decreases n,
{
    if n == 0 {
        Ok(Decoded { slots: Seq::new(schema.len(), |i: int| None), extras: Map::empty() })
    } else {
        match decode_prefix(schema, fields, (n - 1) as nat) {
            Err(e) => Err(e),
            Ok(st) => decode_step(schema, st, fields[n - 1]),
        }
    }
}

/// The first required schema field from `k` on whose slot is empty, or the schema's length.
pub open spec fn missing_from(schema: Seq<FieldView>, slots: Seq<Option<ValueView>>, k: int) -> int
    decreases schema.len() - k,
{
    if k < 0 || k >= schema.len() {
        schema.len() as int
    } else if schema[k].required && slots[k] is None {
        k
    } else {
        missing_from(schema, slots, k + 1)
    }
}

/// All assignments of a block against a schema; then every required field must be there,
/// the first missing one in schema order being reported.
pub open spec fn decode_fields(schema: Seq<FieldView>, fields: Seq<(Seq<char>, ValueView)>) -> Result<
    Decoded,
    ErrorKindView,
> {
    match decode_prefix(schema, fields, fields.len()) {
        Err(e) => Err(e),
        Ok(st) => {
            let m = missing_from(schema, st.slots, 0);
            if m < schema.len() {
                Err(ErrorKindView::MissingField(schema[m].name))
            } else {
                Ok(st)
            }
        },
    }
}

/// What a key is assigned, decoded as a record of the schema: it must be a block.
pub open spec fn block_of(schema: Seq<FieldView>, en: EntryView) -> Result<Decoded, ErrorKindView> {
    match en {
        EntryView::Scalar(v) => Err(
            ErrorKindView::InvalidType { expected: Shape::Block, found: shape_of(v) },
        ),
        EntryView::Block(fields) => decode_fields(schema, fields),
    }
}

/// A slot holds what its field allows.
pub open spec fn slot_fits(f: FieldView, o: Option<ValueView>) -> bool {
    match o {
        None => !f.required,
        Some(v) => accepts(f.shape, shape_of(v)),
    }
}

pub open spec fn slot_view(o: Option<Value>) -> Option<ValueView> {
    match o {
        Some(v) => Some(v@),
        None => None,
    }
}

pub open spec fn slots_view(s: Seq<Option<Value>>) -> Seq<Option<ValueView>> {
    s.map_values(|o: Option<Value>| slot_view(o))
}

proof fn lemma_find_field(schema: Seq<FieldView>, name: Seq<char>)
    ensures
        0 <= find_field(schema, name) <= schema.len(),
        find_field(schema, name) < schema.len() ==> schema[find_field(schema, name)].name == name,
        forall|j: int| 0 <= j < find_field(schema, name) ==> schema[j].name != name,
    decreases schema.len(),
{
    if schema.len() > 0 {
        let rest = schema.drop_last();
        lemma_find_field(rest, name);
        assert(forall|j: int| 0 <= j < rest.len() ==> rest[j] == schema[j]);
    }
}

proof fn lemma_decode_err(
    schema: Seq<FieldView>,
    fields: Seq<(Seq<char>, ValueView)>,
    j: nat,
    n: nat,
)
    requires
        j <= n,
        decode_prefix(schema, fields, j) is Err,
    ensures
        decode_prefix(schema, fields, n) == decode_prefix(schema, fields, j),
    decreases n,
{
    if n > j {
        lemma_decode_err(schema, fields, j, (n - 1) as nat);
    }
}

proof fn lemma_decode_prefix_slots(
    schema: Seq<FieldView>,
    fields: Seq<(Seq<char>, ValueView)>,
    n: nat,
)
    requires
        n <= fields.len(),
    ensures
        decode_prefix(schema, fields, n) matches Ok(st) ==> st.slots.len() == schema.len() && forall|
            i: int,
        |
            0 <= i < schema.len() ==> (#[trigger] st.slots[i] matches Some(v) ==> accepts(
                schema[i].shape,
                shape_of(v),
            )),
    decreases n,
{
    if n > 0 {
        lemma_decode_prefix_slots(schema, fields, (n - 1) as nat);
        lemma_find_field(schema, fields[n - 1].0);
    }
}

proof fn lemma_missing_from(schema: Seq<FieldView>, slots: Seq<Option<ValueView>>, k: int)
    requires
        0 <= k <= schema.len(),
        slots.len() == schema.len(),
    ensures
        k <= missing_from(schema, slots, k) <= schema.len(),
        missing_from(schema, slots, k) < schema.len() ==> schema[missing_from(schema, slots, k)].required
            && slots[missing_from(schema, slots, k)] is None,
        forall|j: int|
            k <= j < missing_from(schema, slots, k) ==> !(schema[j].required && #[trigger] slots[j] is None),
    decreases schema.len() - k,
{
    if k < schema.len() && !(schema[k].required && slots[k] is None) {
        lemma_missing_from(schema, slots, k + 1);
    }
}

proof fn lemma_decode_fields_fit(schema: Seq<FieldView>, fields: Seq<(Seq<char>, ValueView)>)
    ensures
        decode_fields(schema, fields) matches Ok(st) ==> st.slots.len() == schema.len() && forall|
            i: int,
        | 0 <= i < schema.len() ==> slot_fits(schema[i], #[trigger] st.slots[i]),
{
    lemma_decode_prefix_slots(schema, fields, fields.len());
    if let Ok(st) = decode_prefix(schema, fields, fields.len()) {
        lemma_missing_from(schema, st.slots, 0);
    }
}

/// The index of the schema field named `name`, or the schema's length where none is.
fn find_field_index(schema: &Vec<FieldSpec>, name: &str) -> (r: usize)
    ensures
        r == find_field(schema_view(schema@), name@),
{
    let ghost sv = schema_view(schema@);
    proof {
        lemma_find_field(sv, name@);
    }
    let mut i: usize = 0;
    while i < schema.len()
        invariant
            sv == schema_view(schema@),
            i <= schema@.len(),
            forall|k: int| 0 <= k < i ==> sv[k].name != name@,
            0 <= find_field(sv, name@) <= sv.len(),
            find_field(sv, name@) < sv.len() ==> sv[find_field(sv, name@)].name == name@,
            forall|j: int| 0 <= j < find_field(sv, name@) ==> sv[j].name != name@,
        decreases schema@.len() - i,
    {
        if str_equal(schema[i].name, name) {
            assert(sv[i as int].name == name@);
            return i;
        }
        i = i + 1;
    }
    i
}

/// Decodes the assignments of a block against a schema: one slot per schema field, in
/// schema order, and the extras.
fn decode_block(entry: Entry, schema: &Vec<FieldSpec>) -> (r: Result<(Vec<Option<Value>>, Extras), Error>)
    ensures
        match block_of(schema_view(schema@), entry_view(entry)) {
            Ok(d) => r matches Ok((slots, extras)) && slots_view(slots@) == d.slots && extras@
                == d.extras && slots@.len() == schema@.len() && forall|i: int|
                0 <= i < schema@.len() ==> slot_fits(schema@[i]@, #[trigger] slot_view(slots@[i])),
            Err(e) => r matches Err(x) && x@ == e,
        },
{
    let ghost sv = schema_view(schema@);
    let ghost target = block_of(schema_view(schema@), entry_view(entry));
    let fields = match entry {
        Entry::Scalar(v) => {
            return Err(Error::invalid_type(Shape::Block, v.shape()));
        },
        Entry::Block(fields) => fields,
    };
    let ghost fv = fields_view(fields@);
    assert(target == decode_fields(sv, fv));
    let mut slots: Vec<Option<Value>> = Vec::new();
    let mut k: usize = 0;
    while k < schema.len()
        invariant
            k <= schema@.len(),
            slots@.len() == k,
            forall|m: int| 0 <= m < k ==> #[trigger] slots@[m] is None,
        decreases schema@.len() - k,
    {
        slots.push(None);
        k = k + 1;
    }
    assert(slots_view(slots@) =~= Seq::new(sv.len(), |i: int| None::<ValueView>));
    let mut extras = Extras::new();
    assert(decode_prefix(sv, fv, 0) == Ok::<Decoded, ErrorKindView>(
        Decoded { slots: slots_view(slots@), extras: extras@ },
    ));
    for kv in it: fields.into_iter()
        invariant
            it.seq() == fields@,
            target == decode_fields(sv, fv),
            target == block_of(schema_view(schema@), entry_view(entry)),
            fv == fields_view(fields@),
            sv == schema_view(schema@),
            slots@.len() == schema@.len(),
            decode_prefix(sv, fv, it.index() as nat) == Ok::<Decoded, ErrorKindView>(
                Decoded { slots: slots_view(slots@), extras: extras@ },
            ),
    {
        let ghost n = it.index();
        let (key, value) = kv;
        assert(fv[n as int] == (key@, value@));
        let i = find_field_index(schema, key.as_str());
        if i < schema.len() {
            let spec_i = &schema[i];
            assert(sv[i as int] == spec_i@);
            if slots[i].is_some() {
                assert(slots_view(slots@)[i as int] is Some);
                proof {
                    lemma_decode_err(sv, fv, (n + 1) as nat, fv.len());
                }
                return Err(Error::duplicate_field(spec_i.name));
            }
            assert(slots_view(slots@)[i as int] is None);
            let found = value.shape();
            if !spec_i.shape.accepts(found) {
                proof {
                    lemma_decode_err(sv, fv, (n + 1) as nat, fv.len());
                }
                return Err(Error::invalid_type(spec_i.shape, found));
            }
            let ghost before = slots_view(slots@);
            let ghost vv = value@;
            slots.set(i, Some(value));
            assert(slots_view(slots@) =~= before.update(i as int, Some(vv)));
        } else {
            extras.insert(key, value);
        }
    }
    proof {
        lemma_decode_fields_fit(sv, fv);
        lemma_missing_from(sv, slots_view(slots@), 0);
    }
    let mut m: usize = 0;
    while m < schema.len()
        invariant
            m <= schema@.len(),
            slots@.len() == schema@.len(),
            sv == schema_view(schema@),
            target == decode_fields(sv, fv),
            target == block_of(schema_view(schema@), entry_view(entry)),
            decode_prefix(sv, fv, fv.len()) == Ok::<Decoded, ErrorKindView>(
                Decoded { slots: slots_view(slots@), extras: extras@ },
            ),
            forall|j: int| 0 <= j < m ==> !(sv[j].required && #[trigger] slots_view(slots@)[j] is None),
        decreases schema@.len() - m,
    {
        if schema[m].required && slots[m].is_none() {
            assert(slots_view(slots@)[m as int] is None);
            assert(sv[m as int] == schema@[m as int]@);
            proof {
                lemma_missing_from(sv, slots_view(slots@), 0);
                assert(missing_from(sv, slots_view(slots@), 0) == m);
            }
            return Err(Error::missing_field(schema[m].name));
        }
        m = m + 1;
    }
    proof {
        lemma_missing_from(sv, slots_view(slots@), 0);
        assert forall|i: int| 0 <= i < schema@.len() implies slot_fits(
            schema@[i]@,
            #[trigger] slot_view(slots@[i]),
        ) by {
            assert(slots_view(slots@)[i] == slot_view(slots@[i]));
            assert(sv[i] == schema@[i]@);
        }
    }
    Ok((slots, extras))
}

// ----------------------------------------------------------------------------------------
// Taking values out of slots
// ----------------------------------------------------------------------------------------

pub open spec fn decimal_slot(o: Option<ValueView>) -> DecimalView {
    match o {
        Some(ValueView::Float(d)) => d,
        _ => arbitrary(),
    }
}

pub open spec fn opt_decimal_slot(o: Option<ValueView>) -> Option<DecimalView> {
    match o {
        Some(ValueView::Float(d)) => Some(d),
        _ => None,
    }
}

pub open spec fn int_slot(o: Option<ValueView>, default: int) -> int {
    match o {
        Some(ValueView::Integer(n)) => n,
        _ => default,
    }
}

pub open spec fn opt_int_slot(o: Option<ValueView>) -> Option<int> {
    match o {
        Some(ValueView::Integer(n)) => Some(n),
        _ => None,
    }
}

pub open spec fn bool_slot(o: Option<ValueView>, default: bool) -> bool {
    match o {
        Some(ValueView::Boolean(b)) => b,
        _ => default,
    }
}

pub open spec fn string_slot(o: Option<ValueView>) -> Seq<char> {
    match o {
        Some(ValueView::String(t)) => t,
        _ => arbitrary(),
    }
}

pub open spec fn opt_decimal_view(o: Option<Decimal>) -> Option<DecimalView> {
    match o {
        Some(d) => Some(d@),
        None => None,
    }
}

pub open spec fn opt_int_view(o: Option<i32>) -> Option<int> {
    match o {
        Some(n) => Some(n as int),
        None => None,
    }
}

/// Takes the last slot.
fn pop_slot(slots: &mut Vec<Option<Value>>) -> (r: Option<Value>)
    requires
        old(slots)@.len() > 0,
    ensures
        final(slots)@ == old(slots)@.drop_last(),
        r == old(slots)@.last(),
{
    match slots.pop() {
        Some(o) => o,
        None => None,
    }
}

fn take_decimal(o: Option<Value>) -> (r: Decimal)
    requires
        o matches Some(Value::Float(_)),
    ensures
        r@ == decimal_slot(slot_view(o)),
{
    match o {
        Some(Value::Float(d)) => d,
        _ => vstd::pervasive::unreached(),
    }
}

fn take_opt_decimal(o: Option<Value>) -> (r: Option<Decimal>)
    requires
        o is None || o matches Some(Value::Float(_)),
    ensures
        opt_decimal_view(r) == opt_decimal_slot(slot_view(o)),
{
    match o {
        Some(Value::Float(d)) => Some(d),
        _ => None,
    }
}

fn take_int(o: Option<Value>, default: i32) -> (r: i32)
    requires
        o is None || o matches Some(Value::Integer(_)),
    ensures
        r == int_slot(slot_view(o), default as int),
{
    match o {
        Some(Value::Integer(n)) => n,
        _ => default,
    }
}

fn take_opt_int(o: Option<Value>) -> (r: Option<i32>)
    requires
        o is None || o matches Some(Value::Integer(_)),
    ensures
        opt_int_view(r) == opt_int_slot(slot_view(o)),
{
    match o {
        Some(Value::Integer(n)) => Some(n),
        _ => None,
    }
}

fn take_bool(o: Option<Value>, default: bool) -> (r: bool)
    requires
        o is None || o matches Some(Value::Boolean(_)),
    ensures
        r == bool_slot(slot_view(o), default),
{
    match o {
        Some(Value::Boolean(b)) => b,
        _ => default,
    }
}

fn take_string(o: Option<Value>) -> (r: String)
    requires
        o matches Some(Value::String(_)),
    ensures
        r@ == string_slot(slot_view(o)),
{
    match o {
        Some(Value::String(t)) => t,
        _ => vstd::pervasive::unreached(),
    }
}

/// A field of the schema.
fn field(name: &'static str, shape: Shape, required: bool) -> (r: FieldSpec)
    ensures
        r@ == (FieldView { name: name@, shape, required }),
{
    FieldSpec { name, shape, required }
}

// ----------------------------------------------------------------------------------------
// Records
// ----------------------------------------------------------------------------------------

/// A thing placed on the map.
#[derive(Debug)]
pub struct Thing {
    pub x: Decimal,
    pub y: Decimal,
    /// Absent where the block does not give it.
    pub height: Option<Decimal>,
    pub angle: i32,
    /// Written `type` in the text.
    pub kind: i32,
    pub extras: Extras,
}

pub struct ThingView {
    pub x: DecimalView,
    pub y: DecimalView,
    pub height: Option<DecimalView>,
    pub angle: int,
    pub kind: int,
    pub extras: Map<Seq<char>, ValueView>,
}

impl View for Thing {
    type V = ThingView;

    open spec fn view(&self) -> ThingView {
        ThingView {
            x: self.x@,
            y: self.y@,
            height: opt_decimal_view(self.height),
            angle: self.angle as int,
            kind: self.kind as int,
            extras: self.extras@,
        }
    }
}

pub open spec fn thing_schema() -> Seq<FieldView> {
    seq![
        FieldView { name: "x"@, shape: Shape::Float, required: true },
        FieldView { name: "y"@, shape: Shape::Float, required: true },
        FieldView { name: "height"@, shape: Shape::Float, required: false },
        FieldView { name: "angle"@, shape: Shape::Integer, required: true },
        FieldView { name: "type"@, shape: Shape::Integer, required: true },
    ]
}

/// The thing that a key's assignment decodes to.
pub open spec fn thing_of(en: EntryView) -> Result<ThingView, ErrorKindView> {
    match block_of(thing_schema(), en) {
        Err(e) => Err(e),
        Ok(d) => Ok(
            ThingView {
                x: decimal_slot(d.slots[0]),
                y: decimal_slot(d.slots[1]),
                height: opt_decimal_slot(d.slots[2]),
                angle: int_slot(d.slots[3], 0),
                kind: int_slot(d.slots[4], 0),
                extras: d.extras,
            },
        ),
    }
}

impl Thing {
    /// Decodes a thing from what its key is assigned.
    pub fn from_entry(entry: Entry) -> (r: Result<Thing, Error>)
        ensures
            result_view(r) == thing_of(entry_view(entry)),
    {
        let mut schema: Vec<FieldSpec> = Vec::new();
        schema.push(field("x", Shape::Float, true));
        schema.push(field("y", Shape::Float, true));
        schema.push(field("height", Shape::Float, false));
        schema.push(field("angle", Shape::Integer, true));
        schema.push(field("type", Shape::Integer, true));
        assert(schema_view(schema@) =~= thing_schema());
        let (mut slots, extras) = decode_block(entry, &schema)?;
        let ghost sv = slots_view(slots@);
        assert(forall|i: int| 0 <= i < 5 ==> sv[i] == slot_view(slots@[i]));
        assert(slot_fits(schema@[0]@, slot_view(slots@[0])));
        assert(slot_fits(schema@[1]@, slot_view(slots@[1])));
        assert(slot_fits(schema@[2]@, slot_view(slots@[2])));
        assert(slot_fits(schema@[3]@, slot_view(slots@[3])));
        assert(slot_fits(schema@[4]@, slot_view(slots@[4])));
        let kind = take_int(pop_slot(&mut slots), 0);
        let angle = take_int(pop_slot(&mut slots), 0);
        let height = take_opt_decimal(pop_slot(&mut slots));
        let y = take_decimal(pop_slot(&mut slots));
        let x = take_decimal(pop_slot(&mut slots));
        Ok(Thing { x, y, height, angle, kind, extras })
    }
}

/// A single vertex on the map.
#[derive(Debug)]
pub struct Vertex {
    pub x: Decimal,
    pub y: Decimal,
    pub extras: Extras,
}

pub struct VertexView {
    pub x: DecimalView,
    pub y: DecimalView,
    pub extras: Map<Seq<char>, ValueView>,
}

impl View for Vertex {
    type V = VertexView;

    open spec fn view(&self) -> VertexView {
        VertexView { x: self.x@, y: self.y@, extras: self.extras@ }
    }
}

pub open spec fn vertex_schema() -> Seq<FieldView> {
    seq![
        FieldView { name: "x"@, shape: Shape::Float, required: true },
        FieldView { name: "y"@, shape: Shape::Float, required: true },
    ]
}

/// The vertex that a key's assignment decodes to.
pub open spec fn vertex_of(en: EntryView) -> Result<VertexView, ErrorKindView> {
    match block_of(vertex_schema(), en) {
        Err(e) => Err(e),
        Ok(d) => Ok(
            VertexView { x: decimal_slot(d.slots[0]), y: decimal_slot(d.slots[1]), extras: d.extras },
        ),
    }
}

impl Vertex {
    /// Decodes a vertex from what its key is assigned.
    pub fn from_entry(entry: Entry) -> (r: Result<Vertex, Error>)
        ensures
            result_view(r) == vertex_of(entry_view(entry)),
    {
        let mut schema: Vec<FieldSpec> = Vec::new();
        schema.push(field("x", Shape::Float, true));
        schema.push(field("y", Shape::Float, true));
        assert(schema_view(schema@) =~= vertex_schema());
        let (mut slots, extras) = decode_block(entry, &schema)?;
        let ghost sv = slots_view(slots@);
        assert(forall|i: int| 0 <= i < 2 ==> sv[i] == slot_view(slots@[i]));
        assert(slot_fits(schema@[0]@, slot_view(slots@[0])));
        assert(slot_fits(schema@[1]@, slot_view(slots@[1])));
        let y = take_decimal(pop_slot(&mut slots));
        let x = take_decimal(pop_slot(&mut slots));
        Ok(Vertex { x, y, extras })
    }
}

/// A line between two vertices, with one or two sides.
#[derive(Debug)]
pub struct LineDef {
    /// Index of the first vertex.
    pub v1: i32,
    /// Index of the second vertex.
    pub v2: i32,
    /// Index of the front side; written `sidefront`.
    pub side_front: i32,
    /// Index of the back side, where there is one; written `sideback`.
    pub side_back: Option<i32>,
    /// Written `twosided`; false where absent.
    pub two_sided: bool,
    pub extras: Extras,
}

pub struct LineDefView {
    pub v1: int,
    pub v2: int,
    pub side_front: int,
    pub side_back: Option<int>,
    pub two_sided: bool,
    pub extras: Map<Seq<char>, ValueView>,
}

impl View for LineDef {
    type V = LineDefView;

    open spec fn view(&self) -> LineDefView {
        LineDefView {
            v1: self.v1 as int,
            v2: self.v2 as int,
            side_front: self.side_front as int,
            side_back: opt_int_view(self.side_back),
            two_sided: self.two_sided,
            extras: self.extras@,
        }
    }
}

pub open spec fn linedef_schema() -> Seq<FieldView> {
    seq![
        FieldView { name: "v1"@, shape: Shape::Integer, required: true },
        FieldView { name: "v2"@, shape: Shape::Integer, required: true },
        FieldView { name: "sidefront"@, shape: Shape::Integer, required: true },
        FieldView { name: "sideback"@, shape: Shape::Integer, required: false },
        FieldView { name: "twosided"@, shape: Shape::Boolean, required: false },
    ]
}

/// The line that a key's assignment decodes to.
pub open spec fn linedef_of(en: EntryView) -> Result<LineDefView, ErrorKindView> {
    match block_of(linedef_schema(), en) {
        Err(e) => Err(e),
        Ok(d) => Ok(
            LineDefView {
                v1: int_slot(d.slots[0], 0),
                v2: int_slot(d.slots[1], 0),
                side_front: int_slot(d.slots[2], 0),
                side_back: opt_int_slot(d.slots[3]),
                two_sided: bool_slot(d.slots[4], false),
                extras: d.extras,
            },
        ),
    }
}

impl LineDef {
    /// Decodes a line from what its key is assigned.
    pub fn from_entry(entry: Entry) -> (r: Result<LineDef, Error>)
        ensures
            result_view(r) == linedef_of(entry_view(entry)),
    {
        let mut schema: Vec<FieldSpec> = Vec::new();
        schema.push(field("v1", Shape::Integer, true));
        schema.push(field("v2", Shape::Integer, true));
        schema.push(field("sidefront", Shape::Integer, true));
        schema.push(field("sideback", Shape::Integer, false));
        schema.push(field("twosided", Shape::Boolean, false));
        assert(schema_view(schema@) =~= linedef_schema());
        let (mut slots, extras) = decode_block(entry, &schema)?;
        let ghost sv = slots_view(slots@);
        assert(forall|i: int| 0 <= i < 5 ==> sv[i] == slot_view(slots@[i]));
        assert(slot_fits(schema@[0]@, slot_view(slots@[0])));
        assert(slot_fits(schema@[1]@, slot_view(slots@[1])));
        assert(slot_fits(schema@[2]@, slot_view(slots@[2])));
        assert(slot_fits(schema@[3]@, slot_view(slots@[3])));
        assert(slot_fits(schema@[4]@, slot_view(slots@[4])));
        let two_sided = take_bool(pop_slot(&mut slots), false);
        let side_back = take_opt_int(pop_slot(&mut slots));
        let side_front = take_int(pop_slot(&mut slots), 0);
        let v2 = take_int(pop_slot(&mut slots), 0);
        let v1 = take_int(pop_slot(&mut slots), 0);
        Ok(LineDef { v1, v2, side_front, side_back, two_sided, extras })
    }
}

/// One side of a line.
#[derive(Debug)]
pub struct SideDef {
    /// Written `offsetx`; zero where absent.
    pub offset_x: i32,
    /// Written `offsety`; zero where absent.
    pub offset_y: i32,
    /// Index of the sector that the side faces.
    pub sector: i32,
    pub extras: Extras,
}

pub struct SideDefView {
    pub offset_x: int,
    pub offset_y: int,
    pub sector: int,
    pub extras: Map<Seq<char>, ValueView>,
}

impl View for SideDef {
    type V = SideDefView;

    open spec fn view(&self) -> SideDefView {
        SideDefView {
            offset_x: self.offset_x as int,
            offset_y: self.offset_y as int,
            sector: self.sector as int,
            extras: self.extras@,
        }
    }
}

pub open spec fn sidedef_schema() -> Seq<FieldView> {
    seq![
        FieldView { name: "offsetx"@, shape: Shape::Integer, required: false },
        FieldView { name: "offsety"@, shape: Shape::Integer, required: false },
        FieldView { name: "sector"@, shape: Shape::Integer, required: true },
    ]
}

/// The side that a key's assignment decodes to.
pub open spec fn sidedef_of(en: EntryView) -> Result<SideDefView, ErrorKindView> {
    match block_of(sidedef_schema(), en) {
        Err(e) => Err(e),
        Ok(d) => Ok(
            SideDefView {
                offset_x: int_slot(d.slots[0], 0),
                offset_y: int_slot(d.slots[1], 0),
                sector: int_slot(d.slots[2], 0),
                extras: d.extras,
            },
        ),
    }
}

impl SideDef {
    /// Decodes a side from what its key is assigned.
    pub fn from_entry(entry: Entry) -> (r: Result<SideDef, Error>)
        ensures
            result_view(r) == sidedef_of(entry_view(entry)),
    {
        let mut schema: Vec<FieldSpec> = Vec::new();
        schema.push(field("offsetx", Shape::Integer, false));
        schema.push(field("offsety", Shape::Integer, false));
        schema.push(field("sector", Shape::Integer, true));
        assert(schema_view(schema@) =~= sidedef_schema());
        let (mut slots, extras) = decode_block(entry, &schema)?;
        let ghost sv = slots_view(slots@);
        assert(forall|i: int| 0 <= i < 3 ==> sv[i] == slot_view(slots@[i]));
        assert(slot_fits(schema@[0]@, slot_view(slots@[0])));
        assert(slot_fits(schema@[1]@, slot_view(slots@[1])));
        assert(slot_fits(schema@[2]@, slot_view(slots@[2])));
        let sector = take_int(pop_slot(&mut slots), 0);
        let offset_y = take_int(pop_slot(&mut slots), 0);
        let offset_x = take_int(pop_slot(&mut slots), 0);
        Ok(SideDef { offset_x, offset_y, sector, extras })
    }
}

/// An area of the map, with its floor and ceiling.
#[derive(Debug)]
pub struct Sector {
    /// Written `heightfloor`; zero where absent.
    pub height_floor: i32,
    /// Written `heightceiling`; zero where absent.
    pub height_ceiling: i32,
    /// Written `texturefloor`.
    pub texture_floor: String,
    /// Written `textureceiling`.
    pub texture_ceiling: String,
    pub extras: Extras,
}

pub struct SectorView {
    pub height_floor: int,
    pub height_ceiling: int,
    pub texture_floor: Seq<char>,
    pub texture_ceiling: Seq<char>,
    pub extras: Map<Seq<char>, ValueView>,
}

impl View for Sector {
    type V = SectorView;

    open spec fn view(&self) -> SectorView {
        SectorView {
            height_floor: self.height_floor as int,
            height_ceiling: self.height_ceiling as int,
            texture_floor: self.texture_floor@,
            texture_ceiling: self.texture_ceiling@,
            extras: self.extras@,
        }
    }
}

pub open spec fn sector_schema() -> Seq<FieldView> {
    seq![
        FieldView { name: "heightfloor"@, shape: Shape::Integer, required: false },
        FieldView { name: "heightceiling"@, shape: Shape::Integer, required: false },
        FieldView { name: "texturefloor"@, shape: Shape::String, required: true },
        FieldView { name: "textureceiling"@, shape: Shape::String, required: true },
    ]
}

/// The sector that a key's assignment decodes to.
pub open spec fn sector_of(en: EntryView) -> Result<SectorView, ErrorKindView> {
    match block_of(sector_schema(), en) {
        Err(e) => Err(e),
        Ok(d) => Ok(
            SectorView {
                height_floor: int_slot(d.slots[0], 0),
                height_ceiling: int_slot(d.slots[1], 0),
                texture_floor: string_slot(d.slots[2]),
                texture_ceiling: string_slot(d.slots[3]),
                extras: d.extras,
            },
        ),
    }
}

impl Sector {
    /// Decodes a sector from what its key is assigned.
    pub fn from_entry(entry: Entry) -> (r: Result<Sector, Error>)
        ensures
            result_view(r) == sector_of(entry_view(entry)),
    {
        let mut schema: Vec<FieldSpec> = Vec::new();
        schema.push(field("heightfloor", Shape::Integer, false));
        schema.push(field("heightceiling", Shape::Integer, false));
        schema.push(field("texturefloor", Shape::String, true));
        schema.push(field("textureceiling", Shape::String, true));
        assert(schema_view(schema@) =~= sector_schema());
        let (mut slots, extras) = decode_block(entry, &schema)?;
        let ghost sv = slots_view(slots@);
        assert(forall|i: int| 0 <= i < 4 ==> sv[i] == slot_view(slots@[i]));
        assert(slot_fits(schema@[0]@, slot_view(slots@[0])));
        assert(slot_fits(schema@[1]@, slot_view(slots@[1])));
        assert(slot_fits(schema@[2]@, slot_view(slots@[2])));
        assert(slot_fits(schema@[3]@, slot_view(slots@[3])));
        let texture_ceiling = take_string(pop_slot(&mut slots));
        let texture_floor = take_string(pop_slot(&mut slots));
        let height_ceiling = take_int(pop_slot(&mut slots), 0);
        let height_floor = take_int(pop_slot(&mut slots), 0);
        Ok(Sector { height_floor, height_ceiling, texture_floor, texture_ceiling, extras })
    }
}

// ----------------------------------------------------------------------------------------
// Comments
// ----------------------------------------------------------------------------------------

/// The text with every `//` comment removed up to the end of its line, each line ended by
/// a line feed. `in_comment` tells whether the text starts inside a comment.
pub open spec fn strip_comments(s: Seq<char>, in_comment: bool) -> Seq<char>
    decreases s.len(),
{
    if s.len() == 0 {
        seq!['\n']
    } else if s[0] == '\n' {
        seq!['\n'] + strip_comments(s.subrange(1, s.len() as int), false)
    } else if in_comment || (s[0] == '/' && s.len() > 1 && s[1] == '/') {
        strip_comments(s.subrange(1, s.len() as int), true)
    } else {
        seq![s[0]] + strip_comments(s.subrange(1, s.len() as int), false)
    }
}

/// What decoding reads: the text without its comments.
pub open spec fn preprocessed(s: Seq<char>) -> Seq<char> {
    strip_comments(s, false)
}

/// Removes the single-line comments: in each line, everything from the first `//` on.
/// Every line of the result ends with a line feed.
pub fn preprocess(input: &str) -> (r: String)
    ensures
        r@ == preprocessed(input@),
{
    let v = chars_of(input);
    let n = v.len();
    let mut out = String::new();
    let mut in_comment = false;
    let mut k: usize = 0;
    assert(v@.subrange(0, n as int) =~= v@);
    while k < n
        invariant
            n == v@.len(),
            v@ == input@,
            k <= n,
            out@ + strip_comments(v@.subrange(k as int, n as int), in_comment) == preprocessed(
                input@,
            ),
        decreases n - k,
    {
        let ghost before = out@;
        let ghost t = v@.subrange(k as int, n as int);
        assert(t.subrange(1, t.len() as int) =~= v@.subrange(k + 1, n as int));
        let c = v[k];
        if c == '\n' {
            push_char(&mut out, '\n');
            in_comment = false;
            assert(out@ + strip_comments(v@.subrange(k + 1, n as int), false) =~= before
                + strip_comments(t, in_comment));
        } else if in_comment || (c == '/' && k + 1 < n && v[k + 1] == '/') {
            in_comment = true;
        } else {
            push_char(&mut out, c);
            assert(out@ + strip_comments(v@.subrange(k + 1, n as int), false) =~= before
                + strip_comments(t, in_comment));
        }
        k = k + 1;
    }
    push_char(&mut out, '\n');
    assert(v@.subrange(n as int, n as int) =~= Seq::<char>::empty());
    out
}

// ----------------------------------------------------------------------------------------
// The map
// ----------------------------------------------------------------------------------------

/// What the top-level entries read so far have given.
pub struct PartialView {
    pub namespace: Option<Seq<char>>,
    pub version: Option<int>,
    pub things: Seq<ThingView>,
    pub vertices: Seq<VertexView>,
    pub linedefs: Seq<LineDefView>,
    pub sidedefs: Seq<SideDefView>,
    pub sectors: Seq<SectorView>,
    pub extras: Map<Seq<char>, ValueView>,
}

/// A [`LevelMap`] as a mathematical value.
pub struct LevelMapView {
    pub namespace: Seq<char>,
    pub version: int,
    pub things: Seq<ThingView>,
    pub vertices: Seq<VertexView>,
    pub linedefs: Seq<LineDefView>,
    pub sidedefs: Seq<SideDefView>,
    pub sectors: Seq<SectorView>,
    pub extras: Map<Seq<char>, ValueView>,
}

pub open spec fn empty_partial() -> PartialView {
    PartialView {
        namespace: None,
        version: None,
        things: Seq::empty(),
        vertices: Seq::empty(),
        linedefs: Seq::empty(),
        sidedefs: Seq::empty(),
        sectors: Seq::empty(),
        extras: Map::empty(),
    }
}

/// Takes one top-level entry. `namespace` must be a string and `version` an integer; a later
/// one replaces an earlier one. Each `thing`, `vertex`, `linedef`, `sidedef` and `sector`
/// block is appended to its list. Any other key must be assigned a single value, which goes
/// to the extras, a later one replacing an earlier one.
pub open spec fn absorb(p: PartialView, key: Seq<char>, en: EntryView) -> Result<
    PartialView,
    ErrorKindView,
> {
    if key == "namespace"@ {
        match en {
            EntryView::Scalar(ValueView::String(t)) => Ok(PartialView { namespace: Some(t), ..p }),
            EntryView::Scalar(v) => Err(
                ErrorKindView::InvalidType { expected: Shape::String, found: shape_of(v) },
            ),
            EntryView::Block(_) => Err(
                ErrorKindView::InvalidType { expected: Shape::String, found: Shape::Block },
            ),
        }
    } else if key == "version"@ {
        match en {
            EntryView::Scalar(ValueView::Integer(n)) => Ok(PartialView { version: Some(n), ..p }),
            EntryView::Scalar(v) => Err(
                ErrorKindView::InvalidType { expected: Shape::Integer, found: shape_of(v) },
            ),
            EntryView::Block(_) => Err(
                ErrorKindView::InvalidType { expected: Shape::Integer, found: Shape::Block },
            ),
        }
    } else if key == "thing"@ {
        match thing_of(en) {
            Err(e) => Err(e),
            Ok(t) => Ok(PartialView { things: p.things.push(t), ..p }),
        }
    } else if key == "vertex"@ {
        match vertex_of(en) {
            Err(e) => Err(e),
            Ok(v) => Ok(PartialView { vertices: p.vertices.push(v), ..p }),
        }
    } else if key == "linedef"@ {
        match linedef_of(en) {
            Err(e) => Err(e),
            Ok(l) => Ok(PartialView { linedefs: p.linedefs.push(l), ..p }),
        }
    } else if key == "sidedef"@ {
        match sidedef_of(en) {
            Err(e) => Err(e),
            Ok(sd) => Ok(PartialView { sidedefs: p.sidedefs.push(sd), ..p }),
        }
    } else if key == "sector"@ {
        match sector_of(en) {
            Err(e) => Err(e),
            Ok(sc) => Ok(PartialView { sectors: p.sectors.push(sc), ..p }),
        }
    } else {
        match en {
            EntryView::Scalar(v) => Ok(PartialView { extras: p.extras.insert(key, v), ..p }),
            EntryView::Block(_) => Err(
                ErrorKindView::InvalidType { expected: Shape::Scalar, found: Shape::Block },
            ),
        }
    }
}

pub proof fn lemma_key_advances(s: Seq<char>, i: int)
    requires
        0 <= i <= s.len(),
    ensures
        key_at(s, i) matches Ok((Some(_), j)) ==> i < j <= s.len(),
{
    crate::format::udmf::syntax::lemma_token_advances(s, i);
}

pub proof fn lemma_block_fields_advances(s: Seq<char>, i: int)
    requires
        0 <= i <= s.len(),
    ensures
        crate::format::udmf::blocks::block_fields_at(s, i) matches Ok((_, p)) ==> i < p <= s.len(),
    decreases s.len() - i,
{
    crate::format::udmf::blocks::lemma_block_key_advances(s, i);
    if let Ok((Some(_), j)) = crate::format::udmf::blocks::block_key_at(s, i) {
        crate::format::udmf::blocks::lemma_scalar_advances(s, j);
        if let Ok((_, m)) = crate::format::udmf::blocks::scalar_at(s, j) {
            lemma_block_fields_advances(s, m);
        }
    }
}

pub proof fn lemma_entry_advances(s: Seq<char>, i: int)
    requires
        0 <= i <= s.len(),
    ensures
        entry_at(s, i) matches Ok((_, j)) ==> i < j <= s.len(),
{
    crate::format::udmf::syntax::lemma_token_advances(s, i);
    if let Ok((_, j)) = crate::format::udmf::syntax::token_at(s, i) {
        crate::format::udmf::blocks::lemma_scalar_advances(s, j);
        lemma_block_fields_advances(s, j);
    }
}

/// Takes every top-level entry from `i` on, in order; the first failure ends the decoding.
pub open spec fn partial_from(s: Seq<char>, i: int, p: PartialView) -> Result<
    PartialView,
    ErrorKindView,
>
    decreases s.len() - i,
    when 0 <= i <= s.len()
{
    match key_at(s, i) {
        Err(e) => Err(e),
        Ok((None, _)) => Ok(p),
        Ok((Some(k), j)) => match entry_at(s, j) {
            Err(e) => Err(e),
            Ok((en, m)) => match absorb(p, k, en) {
                Err(e) => Err(e),
                Ok(q) => {
                    proof {
                        lemma_key_advances(s, i);
                        lemma_entry_advances(s, j);
                    }
                    partial_from(s, m, q)
                },
            },
        },
    }
}

/// The top-level keys from `i` on, in order, as far as their entries read.
pub open spec fn keys_from(s: Seq<char>, i: int) -> Seq<Seq<char>>
    decreases s.len() - i,
    when 0 <= i <= s.len()
{
    match key_at(s, i) {
        Ok((Some(k), j)) => match entry_at(s, j) {
            Ok((_, m)) => {
                proof {
                    lemma_key_advances(s, i);
                    lemma_entry_advances(s, j);
                }
                seq![k] + keys_from(s, m)
            },
            Err(_) => seq![k],
        },
        _ => Seq::empty(),
    }
}

proof fn lemma_namespace_kept(s: Seq<char>, i: int, p: PartialView)
    requires
        0 <= i <= s.len(),
        partial_from(s, i, p) is Ok,
        !keys_from(s, i).contains("namespace"@),
    ensures
        partial_from(s, i, p)->Ok_0.namespace == p.namespace,
    decreases s.len() - i,
{
    lemma_key_advances(s, i);
    if let Ok((Some(k), j)) = key_at(s, i) {
        lemma_entry_advances(s, j);
        if let Ok((en, m)) = entry_at(s, j) {
            let rest = keys_from(s, m);
            assert(keys_from(s, i) == seq![k] + rest);
            assert(keys_from(s, i)[0] == k);
            assert(k != "namespace"@);
            let q = absorb(p, k, en)->Ok_0;
            assert(q.namespace == p.namespace);
            assert(!rest.contains("namespace"@)) by {
                if rest.contains("namespace"@) {
                    let x = choose|x: int| 0 <= x < rest.len() && rest[x] == "namespace"@;
                    assert(keys_from(s, i)[x + 1] == "namespace"@);
                }
            }
            lemma_namespace_kept(s, m, q);
        }
    }
}

/// A text whose top-level entries all read, and none of which assigns `namespace`, fails to
/// decode with `MissingField("namespace")`.
pub proof fn lemma_namespace_required(text: Seq<char>)
    requires
        partial_from(preprocessed(text), 0, empty_partial()) is Ok,
        !keys_from(preprocessed(text), 0).contains("namespace"@),
    ensures
        map_of(text) == Err::<LevelMapView, ErrorKindView>(
            ErrorKindView::MissingField("namespace"@),
        ),
{
    lemma_namespace_kept(preprocessed(text), 0, empty_partial());
}

/// A top-level key that neither the header nor a record kind claims keeps its value in the
/// extras, and leaves every record list as it was.
pub proof fn lemma_unknown_key_to_extras(p: PartialView, key: Seq<char>, v: ValueView)
    requires
        key != "namespace"@,
        key != "version"@,
        key != "thing"@,
        key != "vertex"@,
        key != "linedef"@,
        key != "sidedef"@,
        key != "sector"@,
    ensures
        absorb(p, key, EntryView::Scalar(v)) == Ok::<PartialView, ErrorKindView>(
            PartialView { extras: p.extras.insert(key, v), ..p },
        ),
{
}

proof fn lemma_strip_ends_line(s: Seq<char>, f: bool)
    ensures
        ends_line(strip_comments(s, f)),
    decreases s.len(),
{
    if s.len() > 0 {
        let rest = s.subrange(1, s.len() as int);
        lemma_strip_ends_line(rest, false);
        lemma_strip_ends_line(rest, true);
    }
}

proof fn lemma_strip_append(s: Seq<char>, t: Seq<char>, f: bool)
    ensures
        strip_comments(s + seq!['\n'] + t, f) == strip_comments(s, f) + strip_comments(t, false),
    decreases s.len(),
{
    let x = s + seq!['\n'] + t;
    if s.len() == 0 {
        assert(x =~= seq!['\n'] + t);
        assert(x.subrange(1, x.len() as int) =~= t);
    } else {
        let rest = s.subrange(1, s.len() as int);
        assert(x.subrange(1, x.len() as int) =~= rest + seq!['\n'] + t);
        assert(x[0] == s[0]);
        if s.len() > 1 {
            assert(x[1] == s[1]);
        } else {
            assert(x[1] == '\n');
        }
        lemma_strip_append(rest, t, false);
        lemma_strip_append(rest, t, true);
        assert(strip_comments(x, f) =~= strip_comments(s, f) + strip_comments(t, false));
    }
}

/// Reading the entries of `a` and then on into what follows `a` is reading on from the
/// end of `a` with what `a` gave.
proof fn lemma_partial_prefix(a: Seq<char>, b: Seq<char>, i: int, p: PartialView)
    requires
        ends_line(a),
        0 <= i <= a.len(),
        partial_from(a, i, p) is Ok,
    ensures
        partial_from(a + b, i, p) == partial_from(a + b, a.len() as int, partial_from(a, i, p)->Ok_0),
    decreases a.len() - i,
{
    let s = a + b;
    lemma_key_advances(a, i);
    match token_at(a, i) {
        Ok(_) => {
            lemma_token_prefix(a, b, i);
            let (k, j) = key_at(a, i)->Ok_0;
            lemma_entry_advances(a, j);
            lemma_entry_prefix(a, b, j);
            let (en, m) = entry_at(a, j)->Ok_0;
            let q = absorb(p, k->Some_0, en)->Ok_0;
            lemma_partial_prefix(a, b, m, q);
        },
        Err(_) => {
            lemma_span_end_bounds(a, i, Run::Space);
            assert forall|k: int| i <= k < a.len() implies crate::format::udmf::syntax::is_space(
                #[trigger] a[k],
            ) by {
                assert(crate::format::udmf::syntax::continues(a, k, Run::Space));
            }
            lemma_space_tail(a, b, i);
            assert(span_end(s, i, Run::Space) == span_end(s, a.len() as int, Run::Space));
            assert(token_at(s, i) == token_at(s, a.len() as int));
            assert(key_at(s, i) == key_at(s, a.len() as int));
        },
    }
}

/// Appending, on a new line, a text that assigns a single value to a key that neither the
/// header nor a record kind claims changes only the top-level extras of a map that
/// decodes: that key now holds that value. `j` and `m` are where the appended key's value
/// and what follows it start.
pub proof fn lemma_append_unknown_key(
    s: Seq<char>,
    t: Seq<char>,
    key: Seq<char>,
    v: ValueView,
    j: int,
    m: int,
)
    requires
        map_of(s) is Ok,
        key != "namespace"@,
        key != "version"@,
        key != "thing"@,
        key != "vertex"@,
        key != "linedef"@,
        key != "sidedef"@,
        key != "sector"@,
        key_at(preprocessed(s + seq!['\n'] + t), preprocessed(s).len() as int) == Ok::<
            (Option<Seq<char>>, int),
            ErrorKindView,
        >((Some(key), j)),
        entry_at(preprocessed(s + seq!['\n'] + t), j) == Ok::<(EntryView, int), ErrorKindView>(
            (EntryView::Scalar(v), m),
        ),
        key_at(preprocessed(s + seq!['\n'] + t), m) matches Ok((None, _)),
    ensures
        map_of(s + seq!['\n'] + t) == Ok::<LevelMapView, ErrorKindView>(
            LevelMapView { extras: map_of(s)->Ok_0.extras.insert(key, v), ..map_of(s)->Ok_0 },
        ),
{
    let a = preprocessed(s);
    let joined = preprocessed(s + seq!['\n'] + t);
    lemma_strip_append(s, t, false);
    lemma_strip_ends_line(s, false);
    assert(joined == a + preprocessed(t));
    lemma_partial_prefix(a, preprocessed(t), 0, empty_partial());
    let q = partial_from(a, 0, empty_partial())->Ok_0;
    lemma_key_advances(joined, a.len() as int);
    lemma_entry_advances(joined, j);
    lemma_unknown_key_to_extras(q, key, v);
    let q2 = PartialView { extras: q.extras.insert(key, v), ..q };
    assert(partial_from(joined, m, q2) == Ok::<PartialView, ErrorKindView>(q2));
    assert(partial_from(joined, a.len() as int, q) == Ok::<PartialView, ErrorKindView>(q2));
}

/// Finishes decoding: `namespace` and `version` must have been given.
pub open spec fn finish(p: PartialView) -> Result<LevelMapView, ErrorKindView> {
    match p.namespace {
        None => Err(ErrorKindView::MissingField("namespace"@)),
        Some(namespace) => match p.version {
            None => Err(ErrorKindView::MissingField("version"@)),
            Some(version) => Ok(
                LevelMapView {
                    namespace,
                    version,
                    things: p.things,
                    vertices: p.vertices,
                    linedefs: p.linedefs,
                    sidedefs: p.sidedefs,
                    sectors: p.sectors,
                    extras: p.extras,
                },
            ),
        },
    }
}

/// The map that a text decodes to.
pub open spec fn map_of(text: Seq<char>) -> Result<LevelMapView, ErrorKindView> {
    match partial_from(preprocessed(text), 0, empty_partial()) {
        Err(e) => Err(e),
        Ok(p) => finish(p),
    }
}

pub open spec fn things_view(v: Seq<Thing>) -> Seq<ThingView> {
    v.map_values(|t: Thing| t@)
}

pub open spec fn vertices_view(v: Seq<Vertex>) -> Seq<VertexView> {
    v.map_values(|t: Vertex| t@)
}

pub open spec fn linedefs_view(v: Seq<LineDef>) -> Seq<LineDefView> {
    v.map_values(|t: LineDef| t@)
}

pub open spec fn sidedefs_view(v: Seq<SideDef>) -> Seq<SideDefView> {
    v.map_values(|t: SideDef| t@)
}

pub open spec fn sectors_view(v: Seq<Sector>) -> Seq<SectorView> {
    v.map_values(|t: Sector| t@)
}

/// The top-level entries read so far.
struct PartialMap {
    namespace: Option<String>,
    version: Option<i32>,
    things: Vec<Thing>,
    vertices: Vec<Vertex>,
    linedefs: Vec<LineDef>,
    sidedefs: Vec<SideDef>,
    sectors: Vec<Sector>,
    extras: Extras,
}

impl View for PartialMap {
    type V = PartialView;

    closed spec fn view(&self) -> PartialView {
        PartialView {
            namespace: match self.namespace {
                Some(t) => Some(t@),
                None => None,
            },
            version: match self.version {
                Some(n) => Some(n as int),
                None => None,
            },
            things: things_view(self.things@),
            vertices: vertices_view(self.vertices@),
            linedefs: linedefs_view(self.linedefs@),
            sidedefs: sidedefs_view(self.sidedefs@),
            sectors: sectors_view(self.sectors@),
            extras: self.extras@,
        }
    }
}

impl PartialMap {
    fn new() -> (r: PartialMap)
        ensures
            r@ == empty_partial(),
    {
        let r = PartialMap {
            namespace: None,
            version: None,
            things: Vec::new(),
            vertices: Vec::new(),
            linedefs: Vec::new(),
            sidedefs: Vec::new(),
            sectors: Vec::new(),
            extras: Extras::new(),
        };
        assert(things_view(r.things@) =~= Seq::empty());
        assert(vertices_view(r.vertices@) =~= Seq::empty());
        assert(linedefs_view(r.linedefs@) =~= Seq::empty());
        assert(sidedefs_view(r.sidedefs@) =~= Seq::empty());
        assert(sectors_view(r.sectors@) =~= Seq::empty());
        r
    }

    /// Takes one top-level entry.
    fn absorb(&mut self, key: String, entry: Entry) -> (r: Result<(), Error>)
        ensures
            match absorb(old(self)@, key@, entry_view(entry)) {
                Ok(q) => r is Ok && final(self)@ == q,
                Err(e) => r matches Err(x) && x@ == e,
            },
    {
        if str_equal(key.as_str(), "namespace") {
            match entry {
                Entry::Scalar(Value::String(t)) => {
                    self.namespace = Some(t);
                    Ok(())
                },
                Entry::Scalar(v) => Err(Error::invalid_type(Shape::String, v.shape())),
                Entry::Block(_) => Err(Error::invalid_type(Shape::String, Shape::Block)),
            }
        } else if str_equal(key.as_str(), "version") {
            match entry {
                Entry::Scalar(Value::Integer(n)) => {
                    self.version = Some(n);
                    Ok(())
                },
                Entry::Scalar(v) => Err(Error::invalid_type(Shape::Integer, v.shape())),
                Entry::Block(_) => Err(Error::invalid_type(Shape::Integer, Shape::Block)),
            }
        } else if str_equal(key.as_str(), "thing") {
            let t = Thing::from_entry(entry)?;
            let ghost before = self.things@;
            self.things.push(t);
            assert(things_view(self.things@) =~= things_view(before).push(t@));
            Ok(())
        } else if str_equal(key.as_str(), "vertex") {
            let v = Vertex::from_entry(entry)?;
            let ghost before = self.vertices@;
            self.vertices.push(v);
            assert(vertices_view(self.vertices@) =~= vertices_view(before).push(v@));
            Ok(())
        } else if str_equal(key.as_str(), "linedef") {
            let l = LineDef::from_entry(entry)?;
            let ghost before = self.linedefs@;
            self.linedefs.push(l);
            assert(linedefs_view(self.linedefs@) =~= linedefs_view(before).push(l@));
            Ok(())
        } else if str_equal(key.as_str(), "sidedef") {
            let sd = SideDef::from_entry(entry)?;
            let ghost before = self.sidedefs@;
            self.sidedefs.push(sd);
            assert(sidedefs_view(self.sidedefs@) =~= sidedefs_view(before).push(sd@));
            Ok(())
        } else if str_equal(key.as_str(), "sector") {
            let sc = Sector::from_entry(entry)?;
            let ghost before = self.sectors@;
            self.sectors.push(sc);
            assert(sectors_view(self.sectors@) =~= sectors_view(before).push(sc@));
            Ok(())
        } else {
            match entry {
                Entry::Scalar(v) => {
                    self.extras.insert(key, v);
                    Ok(())
                },
                Entry::Block(_) => Err(Error::invalid_type(Shape::Scalar, Shape::Block)),
            }
        }
    }
}

/// A single map: its namespace and format version, its records in the order the text gives
/// them, and the top-level assignments that no record kind claims. It never changes after
/// it is decoded.
#[derive(Debug)]
pub struct LevelMap {
    namespace: String,
    version: i32,
    things: Vec<Thing>,
    linedefs: Vec<LineDef>,
    sidedefs: Vec<SideDef>,
    sectors: Vec<Sector>,
    vertices: Vec<Vertex>,
    extras: Extras,
}

impl View for LevelMap {
    type V = LevelMapView;

    closed spec fn view(&self) -> LevelMapView {
        LevelMapView {
            namespace: self.namespace@,
            version: self.version as int,
            things: things_view(self.things@),
            vertices: vertices_view(self.vertices@),
            linedefs: linedefs_view(self.linedefs@),
            sidedefs: sidedefs_view(self.sidedefs@),
            sectors: sectors_view(self.sectors@),
            extras: self.extras@,
        }
    }
}

impl LevelMap {
    /// Decodes a map from its text: comments are removed, then each top-level entry is
    /// read in turn until the text ends. The first failure ends the decoding.
    pub fn from_str(text: &str) -> (r: Result<LevelMap, Error>)
        ensures
            result_view(r) == map_of(text@),
    {
        let input = preprocess(text);
        let mut parser = Parser::new(input.as_str());
        let ghost s = parser.text();
        let mut partial = PartialMap::new();
        loop
            invariant_except_break
                0 <= parser.cursor() <= s.len(),
                partial_from(s, 0, empty_partial()) == partial_from(s, parser.cursor(), partial@),
            invariant
                parser.text() == s,
                s == preprocessed(text@),
            ensures
                partial_from(s, 0, empty_partial()) == Ok::<PartialView, ErrorKindView>(partial@),
            decreases s.len() - parser.cursor(),
        {
            let ghost i = parser.cursor();
            proof {
                lemma_key_advances(s, i);
            }
            match parser.next_key()? {
                None => {
                    break;
                },
                Some(key) => {
                    let ghost j = parser.cursor();
                    proof {
                        lemma_entry_advances(s, j);
                    }
                    let entry = parser.next_value()?;
                    partial.absorb(key, entry)?;
                },
            }
        }
        let namespace = match partial.namespace {
            Some(t) => t,
            None => {
                return Err(Error::missing_field("namespace"));
            },
        };
        let version = match partial.version {
            Some(n) => n,
            None => {
                return Err(Error::missing_field("version"));
            },
        };
        Ok(
            LevelMap {
                namespace,
                version,
                things: partial.things,
                linedefs: partial.linedefs,
                sidedefs: partial.sidedefs,
                sectors: partial.sectors,
                vertices: partial.vertices,
                extras: partial.extras,
            },
        )
    }

    /// The namespace, which names the game the map is for.
    pub fn namespace(&self) -> (r: &str)
        ensures
            r@ == self@.namespace,
    {
        self.namespace.as_str()
    }

    /// The format version.
    pub fn version(&self) -> (r: i32)
        ensures
            r == self@.version,
    {
        self.version
    }

    /// The things, in the order the text gives them.
    pub fn things(&self) -> (r: &Vec<Thing>)
        ensures
            things_view(r@) == self@.things,
    {
        &self.things
    }

    /// The vertices, in the order the text gives them; lines refer to them by index.
    pub fn vertices(&self) -> (r: &Vec<Vertex>)
        ensures
            vertices_view(r@) == self@.vertices,
    {
        &self.vertices
    }

    /// The lines, in the order the text gives them.
    pub fn linedefs(&self) -> (r: &Vec<LineDef>)
        ensures
            linedefs_view(r@) == self@.linedefs,
    {
        &self.linedefs
    }

    /// The sides, in the order the text gives them; lines refer to them by index.
    pub fn sidedefs(&self) -> (r: &Vec<SideDef>)
        ensures
            sidedefs_view(r@) == self@.sidedefs,
    {
        &self.sidedefs
    }

    /// The sectors, in the order the text gives them.
    pub fn sectors(&self) -> (r: &Vec<Sector>)
        ensures
            sectors_view(r@) == self@.sectors,
    {
        &self.sectors
    }

    /// The top-level assignments that no record kind claims.
    pub fn extras(&self) -> (r: &Extras)
        ensures
            r@ == self@.extras,
    {
        &self.extras
    }
}

} // verus!

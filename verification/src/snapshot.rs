//! Send-safe snapshot values of agent and world state.
//!
//! A [`VariantSnapshot`] is a plain-data copy of one engine value; a
//! [`BlackboardSnapshot`] holds named properties plus the world objects.
//! Floating-point values are carried as their IEEE-754 bit pattern, so the
//! planner can store, copy and compare them without doing float arithmetic.
//! Two floats are the same value when their bit patterns agree, with `+0.0`
//! and `-0.0` being one value; a NaN is the same value as a NaN with the same
//! bit pattern, so that equality stays reflexive.
use vstd::prelude::*;
use vstd::string::*;

verus! {

broadcast use vstd::std_specs::vec::group_vec_axioms;

/// Plain-data copy of one engine value.
#[derive(Debug, PartialEq, Eq, Hash)]
pub enum VariantSnapshot {
    Nil,
    Bool(bool),
    Int(i64),
    /// IEEE-754 bit pattern of a 64-bit float.
    Float(u64),
    Str(String),
    /// Opaque serialised engine value.
    Bytes(Vec<u8>),
    /// Engine instance id of a live object.
    ObjectRef(i64),
    Array(Vec<VariantSnapshot>),
}

/// The bit pattern of `-0.0`.
pub const NEGATIVE_ZERO_BITS: u64 = 0x8000_0000_0000_0000u64;

/// The bit pattern a float is identified by: `-0.0` is taken as `+0.0`.
pub open spec fn float_key(bits: u64) -> u64 {
    if bits == NEGATIVE_ZERO_BITS {
        0
    } else {
        bits
    }
}

/// Computes `float_key`.
pub fn float_key_of(bits: u64) -> (r: u64)
    ensures
        r == float_key(bits),
{
    if bits == NEGATIVE_ZERO_BITS {
        0
    } else {
        bits
    }
}

/// Mathematical model of a [`VariantSnapshot`]; a float is modelled by its key.
pub enum VariantModel {
    Nil,
    Bool(bool),
    Int(i64),
    Float(u64),
    Str(Seq<char>),
    Bytes(Seq<u8>),
    ObjectRef(i64),
    Array(Seq<VariantModel>),
}

pub open spec fn variant_model(v: VariantSnapshot) -> VariantModel
    decreases v,
{
    match v {
        VariantSnapshot::Nil => VariantModel::Nil,
        VariantSnapshot::Bool(b) => VariantModel::Bool(b),
        VariantSnapshot::Int(i) => VariantModel::Int(i),
        VariantSnapshot::Float(f) => VariantModel::Float(float_key(f)),
        VariantSnapshot::Str(s) => VariantModel::Str(s@),
        VariantSnapshot::Bytes(b) => VariantModel::Bytes(b@),
        VariantSnapshot::ObjectRef(i) => VariantModel::ObjectRef(i),
        VariantSnapshot::Array(elems) => VariantModel::Array(variant_models(elems@)),
    }
}

/// Models of a sequence of snapshot values, element by element.
pub open spec fn variant_models(s: Seq<VariantSnapshot>) -> Seq<VariantModel>
    decreases s,
{
    if s.len() == 0 {
        Seq::empty()
    } else {
        variant_models(s.drop_last()).push(variant_model(s.last()))
    }
}

impl View for VariantSnapshot {
    type V = VariantModel;

    open spec fn view(&self) -> VariantModel {
        variant_model(*self)
    }
}

/// The models of a sequence have its length.
pub proof fn lemma_variant_models_len(s: Seq<VariantSnapshot>)
    ensures
        variant_models(s).len() == s.len(),
    decreases s.len(),
{
    if s.len() > 0 {
        lemma_variant_models_len(s.drop_last());
    }
}

/// The model at a position is the model of the value at that position.
pub proof fn lemma_variant_models_index(s: Seq<VariantSnapshot>, i: int)
    requires
        0 <= i < s.len(),
    ensures
        variant_models(s).len() == s.len(),
        variant_models(s)[i] == variant_model(s[i]),
    decreases s.len(),
{
    lemma_variant_models_len(s);
    if i < s.len() - 1 {
        lemma_variant_models_index(s.drop_last(), i);
    }
}

/// Two sequences have equal models exactly when they have equal lengths and
/// equal models element by element.
pub proof fn lemma_variant_models_eq(a: Seq<VariantSnapshot>, b: Seq<VariantSnapshot>)
    ensures
        (variant_models(a) == variant_models(b)) <==> (a.len() == b.len() && forall|i: int|
            0 <= i < a.len() ==> variant_model(#[trigger] a[i]) == variant_model(b[i])),
{
    lemma_variant_models_len(a);
    lemma_variant_models_len(b);
    if a.len() == b.len() && forall|i: int|
        0 <= i < a.len() ==> variant_model(#[trigger] a[i]) == variant_model(b[i]) {
        assert forall|i: int| 0 <= i < a.len() implies variant_models(a)[i] == variant_models(
            b,
        )[i] by {
            lemma_variant_models_index(a, i);
            lemma_variant_models_index(b, i);
        }
        assert(variant_models(a) =~= variant_models(b));
    }
    if variant_models(a) == variant_models(b) {
        assert forall|i: int| 0 <= i < a.len() implies variant_model(#[trigger] a[i])
            == variant_model(b[i]) by {
            lemma_variant_models_index(a, i);
            lemma_variant_models_index(b, i);
        }
    }
}

/// Appending a value appends its model.
pub proof fn lemma_variant_models_push(s: Seq<VariantSnapshot>, v: VariantSnapshot)
    ensures
        variant_models(s.push(v)) == variant_models(s).push(variant_model(v)),
{
    assert(s.push(v).drop_last() =~= s);
}

/// Copies a byte vector element by element.
fn copy_bytes(b: &Vec<u8>) -> (r: Vec<u8>)
    ensures
        r@ == b@,
{
    let mut r: Vec<u8> = Vec::new();
    let mut i: usize = 0;
    while i < b.len()
        invariant
            i <= b.len(),
            r@ == b@.subrange(0, i as int),
        decreases b.len() - i,
    {
        r.push(b[i]);
        i = i + 1;
        assert(r@ =~= b@.subrange(0, i as int));
    }
    assert(b@.subrange(0, b.len() as int) =~= b@);
    r
}

/// Deep copy of a snapshot value with the same model.
pub fn copy_variant(v: &VariantSnapshot) -> (r: VariantSnapshot)
    ensures
        r@ == v@,
    decreases v, 1nat,
{
    match v {
        VariantSnapshot::Nil => VariantSnapshot::Nil,
        VariantSnapshot::Bool(b) => VariantSnapshot::Bool(*b),
        VariantSnapshot::Int(i) => VariantSnapshot::Int(*i),
        VariantSnapshot::Float(f) => VariantSnapshot::Float(*f),
        VariantSnapshot::Str(s) => VariantSnapshot::Str(s.clone()),
        VariantSnapshot::Bytes(b) => VariantSnapshot::Bytes(copy_bytes(b)),
        VariantSnapshot::ObjectRef(i) => VariantSnapshot::ObjectRef(*i),
        VariantSnapshot::Array(elems) => {
            let c = copy_variants_inner(elems);
            VariantSnapshot::Array(c)
        },
    }
}

fn copy_variants_inner(s: &Vec<VariantSnapshot>) -> (r: Vec<VariantSnapshot>)
    ensures
        variant_models(r@) == variant_models(s@),
    decreases s, 0nat,
{
    let mut r: Vec<VariantSnapshot> = Vec::new();
    let mut i: usize = 0;
    while i < s.len()
        invariant
            i <= s.len(),
            r@.len() == i,
            forall|j: int| 0 <= j < i ==> variant_model(#[trigger] r@[j]) == variant_model(s@[j]),
        decreases s.len() - i,
    {
        proof {
            assert(decreases_to!(s => s[i as int]));
        }
        let c = copy_variant(&s[i]);
        r.push(c);
        i = i + 1;
    }
    proof {
        lemma_variant_models_eq(r@, s@);
    }
    r
}

/// Deep copy of a sequence of snapshot values with the same models.
pub fn copy_variants(s: &Vec<VariantSnapshot>) -> (r: Vec<VariantSnapshot>)
    ensures
        variant_models(r@) == variant_models(s@),
{
    copy_variants_inner(s)
}

impl Clone for VariantSnapshot {
    fn clone(&self) -> (r: Self)
        ensures
            r@ == self@,
    {
        copy_variant(self)
    }
}

/// Structural equality of two byte vectors.
fn bytes_eq(a: &Vec<u8>, b: &Vec<u8>) -> (r: bool)
    ensures
        r == (a@ == b@),
{
    if a.len() != b.len() {
        return false;
    }
    let mut i: usize = 0;
    while i < a.len()
        invariant
            a.len() == b.len(),
            i <= a.len(),
            forall|j: int| 0 <= j < i ==> a@[j] == b@[j],
        decreases a.len() - i,
    {
        if a[i] != b[i] {
            return false;
        }
        i = i + 1;
    }
    assert(a@ =~= b@);
    true
}

/// Structural equality of two snapshot values: equal exactly when their models are equal.
pub fn variant_eq(a: &VariantSnapshot, b: &VariantSnapshot) -> (r: bool)
    ensures
        r == (a@ == b@),
    decreases a, 1nat,
{
    match (a, b) {
        (VariantSnapshot::Nil, VariantSnapshot::Nil) => true,
        (VariantSnapshot::Bool(x), VariantSnapshot::Bool(y)) => *x == *y,
        (VariantSnapshot::Int(x), VariantSnapshot::Int(y)) => *x == *y,
        (VariantSnapshot::Float(x), VariantSnapshot::Float(y)) => float_key_of(*x) == float_key_of(*y),
        (VariantSnapshot::Str(x), VariantSnapshot::Str(y)) => x.eq(y),
        (VariantSnapshot::Bytes(x), VariantSnapshot::Bytes(y)) => bytes_eq(x, y),
        (VariantSnapshot::ObjectRef(x), VariantSnapshot::ObjectRef(y)) => *x == *y,
        (VariantSnapshot::Array(x), VariantSnapshot::Array(y)) => {
            let r = variants_eq_inner(x, y);
            r
        },
        _ => false,
    }
}

fn variants_eq_inner(a: &Vec<VariantSnapshot>, b: &Vec<VariantSnapshot>) -> (r: bool)
    ensures
        r == (variant_models(a@) == variant_models(b@)),
    decreases a, 0nat,
{
    proof {
        lemma_variant_models_eq(a@, b@);
    }
    if a.len() != b.len() {
        return false;
    }
    let mut i: usize = 0;
    while i < a.len()
        invariant
            a.len() == b.len(),
            i <= a.len(),
            forall|j: int| 0 <= j < i ==> variant_model(#[trigger] a@[j]) == variant_model(b@[j]),
        decreases a.len() - i,
    {
        proof {
            assert(decreases_to!(a => a[i as int]));
        }
        if !variant_eq(&a[i], &b[i]) {
            proof {
                lemma_variant_models_eq(a@, b@);
            }
            return false;
        }
        i = i + 1;
    }
    true
}

/// Structural equality of two sequences of snapshot values.
pub fn variants_eq(a: &Vec<VariantSnapshot>, b: &Vec<VariantSnapshot>) -> (r: bool)
    ensures
        r == (variant_models(a@) == variant_models(b@)),
{
    variants_eq_inner(a, b)
}

impl VariantSnapshot {
    /// Returns true if this value is null.
    pub fn is_null(&self) -> (r: bool)
        ensures
            r == (self@ is Nil),
    {
        match self {
            VariantSnapshot::Nil => true,
            _ => false,
        }
    }

    /// Returns true if this value is the empty string.
    pub fn is_empty_string(&self) -> (r: bool)
        ensures
            r == (self@ matches VariantModel::Str(s) && s.len() == 0),
    {
        match self {
            VariantSnapshot::Str(s) => s.as_str().unicode_len() == 0,
            _ => false,
        }
    }
}

/// The characters of every string in a sequence.
pub open spec fn string_views(s: Seq<String>) -> Seq<Seq<char>> {
    s.map_values(|x: String| x@)
}

/// Returns true if `list` holds a string equal to `s`.
pub fn contains_string(list: &Vec<String>, s: &String) -> (r: bool)
    ensures
        r == string_views(list@).contains(s@),
{
    let mut i: usize = 0;
    while i < list.len()
        invariant
            i <= list.len(),
            forall|j: int| 0 <= j < i ==> list@[j]@ != s@,
        decreases list.len() - i,
    {
        if list[i].eq(s) {
            assert(string_views(list@)[i as int] == s@);
            return true;
        }
        i = i + 1;
    }
    assert(!string_views(list@).contains(s@)) by {
        if string_views(list@).contains(s@) {
            let k = choose|k: int| 0 <= k < string_views(list@).len() && string_views(list@)[k] == s@;
            assert(list@[k]@ == s@);
        }
    }
    false
}

/// Copies a vector of strings.
pub fn copy_strings(v: &Vec<String>) -> (r: Vec<String>)
    ensures
        string_views(r@) == string_views(v@),
{
    let mut r: Vec<String> = Vec::new();
    let mut i: usize = 0;
    while i < v.len()
        invariant
            i <= v.len(),
            r@.len() == i,
            forall|j: int| 0 <= j < i ==> r@[j]@ == v@[j]@,
        decreases v.len() - i,
    {
        r.push(v[i].clone());
        i = i + 1;
    }
    assert(string_views(r@) =~= string_views(v@));
    r
}

/// Named property entries: key characters and value model.
pub open spec fn property_models(s: Seq<(String, VariantSnapshot)>) -> Seq<(Seq<char>, VariantModel)> {
    s.map_values(|e: (String, VariantSnapshot)| (e.0@, e.1@))
}

/// Value stored under `key` in a list of named entries: the first entry with that key.
pub open spec fn lookup_property(entries: Seq<(Seq<char>, VariantModel)>, key: Seq<char>) -> Option<VariantModel>
    decreases entries.len(),
{
    if entries.len() == 0 {
        None
    } else if entries[0].0 == key {
        Some(entries[0].1)
    } else {
        lookup_property(entries.drop_first(), key)
    }
}

/// Position of the first entry with `key`, if any.
pub open spec fn first_key_index(entries: Seq<(Seq<char>, VariantModel)>, key: Seq<char>, i: int) -> bool {
    0 <= i < entries.len() && entries[i].0 == key && forall|j: int| 0 <= j < i ==> entries[j].0 != key
}

/// A lookup finds nothing exactly when no entry has the key, and otherwise finds
/// the value of the first entry that has it.
pub proof fn lemma_lookup_property(entries: Seq<(Seq<char>, VariantModel)>, key: Seq<char>)
    ensures
        lookup_property(entries, key) is None <==> forall|j: int|
            0 <= j < entries.len() ==> #[trigger] entries[j].0 != key,
        forall|i: int| #[trigger]
            first_key_index(entries, key, i) ==> lookup_property(entries, key) == Some(entries[i].1),
    decreases entries.len(),
{
    if entries.len() > 0 {
        lemma_lookup_property(entries.drop_first(), key);
        assert forall|i: int| #[trigger] first_key_index(entries, key, i) implies lookup_property(
            entries,
            key,
        ) == Some(entries[i].1) by {
            if i > 0 {
                assert(first_key_index(entries.drop_first(), key, i - 1));
            }
        }
        if forall|j: int| 0 <= j < entries.drop_first().len() ==> #[trigger] entries.drop_first()[j].0 != key {
            assert forall|j: int| 0 <= j < entries.len() && j > 0 implies #[trigger] entries[j].0 != key by {
                assert(entries[j] == entries.drop_first()[j - 1]);
            }
        }
    }
}

/// Finds the value stored under `key` in a list of named entries (the first entry with that key).
pub fn find_property<'a>(entries: &'a Vec<(String, VariantSnapshot)>, key: &String) -> (r: Option<&'a VariantSnapshot>)
    ensures
        match r {
            Some(v) => lookup_property(property_models(entries@), key@) == Some(v@),
            None => lookup_property(property_models(entries@), key@) is None,
        },
{
    let ghost m = property_models(entries@);
    assert(m.skip(0) =~= m);
    let mut i: usize = 0;
    while i < entries.len()
        invariant
            m == property_models(entries@),
            i <= entries.len(),
            lookup_property(m, key@) == lookup_property(m.skip(i as int), key@),
        decreases entries.len() - i,
    {
        proof {
            lemma_lookup_skip(m, key@, i as int);
        }
        if entries[i].0.eq(key) {
            return Some(&entries[i].1);
        }
        i = i + 1;
    }
    assert(m.skip(i as int) =~= Seq::<(Seq<char>, VariantModel)>::empty());
    None
}

/// Copies a list of named entries.
pub fn copy_properties(entries: &Vec<(String, VariantSnapshot)>) -> (r: Vec<(String, VariantSnapshot)>)
    ensures
        property_models(r@) == property_models(entries@),
{
    let mut r: Vec<(String, VariantSnapshot)> = Vec::new();
    let mut i: usize = 0;
    while i < entries.len()
        invariant
            i <= entries.len(),
            r@.len() == i,
            forall|j: int| 0 <= j < i ==> r@[j].0@ == entries@[j].0@ && r@[j].1@ == entries@[j].1@,
        decreases entries.len() - i,
    {
        let k = entries[i].0.clone();
        let v = copy_variant(&entries[i].1);
        r.push((k, v));
        i = i + 1;
    }
    assert(property_models(r@) =~= property_models(entries@));
    r
}

/// Send-safe copy of a world object.
#[derive(Debug)]
pub struct SimObjectData {
    pub uid: String,
    pub groups: Vec<String>,
    pub properties: Vec<(String, VariantSnapshot)>,
}

/// Mathematical model of a [`SimObjectData`].
pub struct SimObjectModel {
    pub uid: Seq<char>,
    pub groups: Seq<Seq<char>>,
    pub properties: Seq<(Seq<char>, VariantModel)>,
}

impl View for SimObjectData {
    type V = SimObjectModel;

    open spec fn view(&self) -> SimObjectModel {
        SimObjectModel {
            uid: self.uid@,
            groups: string_views(self.groups@),
            properties: property_models(self.properties@),
        }
    }
}

impl SimObjectData {
    /// Deep copy with the same model.
    pub fn copy(&self) -> (r: Self)
        ensures
            r@ == self@,
    {
        SimObjectData {
            uid: self.uid.clone(),
            groups: copy_strings(&self.groups),
            properties: copy_properties(&self.properties),
        }
    }

    /// Returns true if this object belongs to `group`.
    pub fn is_in_group(&self, group: &String) -> (r: bool)
        ensures
            r == self@.groups.contains(group@),
    {
        contains_string(&self.groups, group)
    }
}

impl Clone for SimObjectData {
    fn clone(&self) -> (r: Self)
        ensures
            r@ == self@,
    {
        self.copy()
    }
}

/// Send-safe copy of a blackboard: named properties plus world objects keyed by uid.
#[derive(Debug)]
pub struct BlackboardSnapshot {
    pub properties: Vec<(String, VariantSnapshot)>,
    pub objects: Vec<(String, SimObjectData)>,
}

/// Mathematical model of a [`BlackboardSnapshot`].
pub struct BlackboardModel {
    pub properties: Seq<(Seq<char>, VariantModel)>,
    pub objects: Seq<(Seq<char>, SimObjectModel)>,
}

pub open spec fn object_models(s: Seq<(String, SimObjectData)>) -> Seq<(Seq<char>, SimObjectModel)> {
    s.map_values(|e: (String, SimObjectData)| (e.0@, e.1@))
}

impl View for BlackboardSnapshot {
    type V = BlackboardModel;

    open spec fn view(&self) -> BlackboardModel {
        BlackboardModel {
            properties: property_models(self.properties@),
            objects: object_models(self.objects@),
        }
    }
}

/// No two entries share a key.
pub open spec fn keys_unique<V>(entries: Seq<(Seq<char>, V)>) -> bool {
    forall|i: int, j: int| 0 <= i < j < entries.len() ==> #[trigger] entries[i].0 != #[trigger] entries[j].0
}

impl BlackboardModel {
    /// A blackboard as the engine keeps it: one property per name and one
    /// object per uid.
    pub open spec fn well_formed(self) -> bool {
        keys_unique(self.properties) && keys_unique(self.objects)
    }
}

/// With unique keys, the lookup of a key finds the value of the one entry that
/// has it.
pub proof fn lemma_unique_lookup(entries: Seq<(Seq<char>, VariantModel)>, i: int)
    requires
        keys_unique(entries),
        0 <= i < entries.len(),
    ensures
        lookup_property(entries, entries[i].0) == Some(entries[i].1),
{
    lemma_lookup_property(entries, entries[i].0);
    assert(first_key_index(entries, entries[i].0, i));
}

/// The object stored under `key`: the first entry with that key.
pub open spec fn lookup_object(entries: Seq<(Seq<char>, SimObjectModel)>, key: Seq<char>) -> Option<SimObjectModel>
    decreases entries.len(),
{
    if entries.len() == 0 {
        None
    } else if entries[0].0 == key {
        Some(entries[0].1)
    } else {
        lookup_object(entries.drop_first(), key)
    }
}

/// The first object (in entry order) that belongs to `group`.
pub open spec fn first_object_in_group(entries: Seq<(Seq<char>, SimObjectModel)>, group: Seq<char>) -> Option<SimObjectModel>
    decreases entries.len(),
{
    if entries.len() == 0 {
        None
    } else if entries[0].1.groups.contains(group) {
        Some(entries[0].1)
    } else {
        first_object_in_group(entries.drop_first(), group)
    }
}

/// Decimal digits of a natural number.
pub open spec fn decimal_digits(n: nat) -> Seq<char>
    decreases n,
{
    if n < 10 {
        seq![((48 + n) as char)]
    } else {
        decimal_digits(n / 10).push(((48 + n % 10) as char))
    }
}

/// Decimal text of an integer, with a leading `-` when negative.
pub open spec fn decimal_text(i: int) -> Seq<char> {
    if i < 0 {
        seq!['-'] + decimal_digits((-i) as nat)
    } else {
        decimal_digits(i as nat)
    }
}

/// Decimal text of an `i64`, as `ToString` writes it.
///
/// Calls `<i64 as ToString>::to_string`; the contract states that the result is
/// the decimal numeral of `i`, with a `-` sign for negative values.
#[verifier::external_body]
pub(crate) fn i64_to_decimal(i: i64) -> (r: String)
    ensures
        r@ == decimal_text(i as int),
{
    i.to_string()
}

/// Value of a non-empty run of ASCII decimal digits.
pub open spec fn digits_value(s: Seq<char>) -> int
    decreases s.len(),
{
    if s.len() == 0 {
        0
    } else {
        digits_value(s.drop_last()) * 10 + (s.last() as int - 48)
    }
}

/// A non-empty run of ASCII decimal digits.
pub open spec fn all_digits(s: Seq<char>) -> bool {
    s.len() > 0 && forall|i: int| 0 <= i < s.len() ==> '0' <= #[trigger] s[i] <= '9'
}

/// The integer written by an optional `+` or `-` sign followed by decimal digits.
pub open spec fn decimal_value(s: Seq<char>) -> Option<int> {
    if s.len() > 0 && s[0] == '-' && all_digits(s.drop_first()) {
        Some(-digits_value(s.drop_first()))
    } else if s.len() > 0 && s[0] == '+' && all_digits(s.drop_first()) {
        Some(digits_value(s.drop_first()))
    } else if all_digits(s) {
        Some(digits_value(s))
    } else {
        None
    }
}

/// The `i64` a decimal numeral denotes, when it is one and the value fits.
pub open spec fn parsed_i64(s: Seq<char>) -> Option<i64> {
    match decimal_value(s) {
        Some(v) => if i64::MIN <= v <= i64::MAX {
            Some(v as i64)
        } else {
            None
        },
        None => None,
    }
}

/// Parses a decimal `i64`.
///
/// Calls `str::parse::<i64>`, whose documentation accepts an optional `+` or `-`
/// sign followed by ASCII digits and rejects overflow; the contract states that.
#[verifier::external_body]
pub(crate) fn parse_i64(s: &String) -> (r: Option<i64>)
    ensures
        r == parsed_i64(s@),
{
    s.parse::<i64>().ok()
}

impl BlackboardSnapshot {
    /// An empty snapshot.
    pub fn new() -> (r: Self)
        ensures
            r@.properties.len() == 0,
            r@.objects.len() == 0,
            r@.well_formed(),
    {
        BlackboardSnapshot { properties: Vec::new(), objects: Vec::new() }
    }

    /// Deep copy with the same model.
    pub fn copy(&self) -> (r: Self)
        ensures
            r@ == self@,
    {
        let mut objects: Vec<(String, SimObjectData)> = Vec::new();
        let mut i: usize = 0;
        while i < self.objects.len()
            invariant
                i <= self.objects.len(),
                objects@.len() == i,
                forall|j: int|
                    0 <= j < i ==> objects@[j].0@ == self.objects@[j].0@ && objects@[j].1@
                        == self.objects@[j].1@,
            decreases self.objects.len() - i,
        {
            objects.push((self.objects[i].0.clone(), self.objects[i].1.copy()));
            i = i + 1;
        }
        assert(object_models(objects@) =~= object_models(self.objects@));
        BlackboardSnapshot { properties: copy_properties(&self.properties), objects }
    }

    /// The property stored under `key`, if any.
    pub fn get_property(&self, key: &String) -> (r: Option<&VariantSnapshot>)
        ensures
            match r {
                Some(v) => lookup_property(self@.properties, key@) == Some(v@),
                None => lookup_property(self@.properties, key@) is None,
            },
    {
        find_property(&self.properties, key)
    }

    /// Returns true if a property is stored under `key`.
    pub fn has_property(&self, key: &String) -> (r: bool)
        ensures
            r == (lookup_property(self@.properties, key@) is Some),
    {
        find_property(&self.properties, key).is_some()
    }

    /// Stores `value` under `key`, replacing the first existing entry with that key
    /// or appending a new entry.
    pub fn set_property(&mut self, key: String, value: VariantSnapshot)
        ensures
            lookup_property(final(self)@.properties, key@) == Some(value@),
            forall|k: Seq<char>|
                k != key@ ==> lookup_property(final(self)@.properties, k) == lookup_property(
                    old(self)@.properties,
                    k,
                ),
            final(self)@.objects == old(self)@.objects,
            old(self)@.well_formed() ==> final(self)@.well_formed(),
    {
        let ghost old_entries = property_models(self.properties@);
        let mut i: usize = 0;
        while i < self.properties.len()
            invariant
                old_entries == property_models(self.properties@),
                self@ == old(self)@,
                i <= self.properties.len(),
                forall|j: int| 0 <= j < i ==> self.properties@[j].0@ != key@,
            decreases self.properties.len() - i,
        {
            if self.properties[i].0.eq(&key) {
                let ghost idx = i as int;
                let ghost e = (key@, value@);
                self.properties.set(i, (key, value));
                proof {
                    let new_entries = property_models(self.properties@);
                    assert(new_entries =~= old_entries.update(idx, e));
                    assert(first_key_index(old_entries, e.0, idx));
                    lemma_lookup_update_same(old_entries, idx, e);
                    assert forall|k: Seq<char>| k != e.0 implies lookup_property(new_entries, k)
                        == lookup_property(old_entries, k) by {
                        lemma_lookup_update_other(old_entries, idx, e, k);
                    }
                    assert(old_entries[idx].0 == e.0);
                    assert forall|a: int, b: int| 0 <= a < b < new_entries.len() && keys_unique(old_entries) implies
                        #[trigger] new_entries[a].0 != #[trigger] new_entries[b].0 by {
                        assert(old_entries[a].0 != old_entries[b].0);
                    }
                }
                return;
            }
            i = i + 1;
        }
        let ghost e = (key@, value@);
        self.properties.push((key, value));
        proof {
            let new_entries = property_models(self.properties@);
            assert(new_entries =~= old_entries.push(e));
            assert forall|j: int| 0 <= j < old_entries.len() implies #[trigger] old_entries[j].0 != e.0 by {
                assert(old_entries[j].0 == self.properties@[j].0@);
            }
            lemma_lookup_push_same(old_entries, e);
            assert forall|a: int, b: int| 0 <= a < b < new_entries.len() && keys_unique(old_entries) implies
                #[trigger] new_entries[a].0 != #[trigger] new_entries[b].0 by {
                if b == old_entries.len() {
                    assert(old_entries[a].0 != e.0);
                } else {
                    assert(old_entries[a].0 != old_entries[b].0);
                }
            }
            assert forall|k: Seq<char>| k != e.0 implies lookup_property(new_entries, k)
                == lookup_property(old_entries, k) by {
                lemma_lookup_push_other(old_entries, e, k);
            }
        }
    }

    /// The world object stored under `uid`, if any.
    pub fn get_object(&self, uid: &String) -> (r: Option<&SimObjectData>)
        ensures
            match r {
                Some(o) => lookup_object(self@.objects, uid@) == Some(o@),
                None => lookup_object(self@.objects, uid@) is None,
            },
    {
        assert(self@.objects.skip(0) =~= self@.objects);
        let mut i: usize = 0;
        while i < self.objects.len()
            invariant
                i <= self.objects.len(),
                lookup_object(self@.objects, uid@) == lookup_object(self@.objects.skip(i as int), uid@),
            decreases self.objects.len() - i,
        {
            assert(self@.objects.skip(i as int).drop_first() =~= self@.objects.skip(i + 1));
            if self.objects[i].0.eq(uid) {
                return Some(&self.objects[i].1);
            }
            i = i + 1;
        }
        None
    }

    /// The world object whose uid is the decimal instance id `id`.
    pub fn get_object_by_instance_id(&self, id: i64) -> (r: Option<&SimObjectData>)
        ensures
            match r {
                Some(o) => lookup_object(self@.objects, decimal_text(id as int)) == Some(o@),
                None => lookup_object(self@.objects, decimal_text(id as int)) is None,
            },
    {
        let uid = i64_to_decimal(id);
        self.get_object(&uid)
    }

    /// The first world object (in entry order) that belongs to `group`.
    pub fn get_object_by_group(&self, group: &String) -> (r: Option<&SimObjectData>)
        ensures
            match r {
                Some(o) => first_object_in_group(self@.objects, group@) == Some(o@),
                None => first_object_in_group(self@.objects, group@) is None,
            },
    {
        assert(self@.objects.skip(0) =~= self@.objects);
        let mut i: usize = 0;
        while i < self.objects.len()
            invariant
                i <= self.objects.len(),
                first_object_in_group(self@.objects, group@) == first_object_in_group(
                    self@.objects.skip(i as int),
                    group@,
                ),
            decreases self.objects.len() - i,
        {
            assert(self@.objects.skip(i as int).drop_first() =~= self@.objects.skip(i + 1));
            if self.objects[i].1.is_in_group(group) {
                return Some(&self.objects[i].1);
            }
            i = i + 1;
        }
        None
    }
}

impl Clone for BlackboardSnapshot {
    fn clone(&self) -> (r: Self)
        ensures
            r@ == self@,
    {
        self.copy()
    }
}

/// Replacing the first entry with a key makes the lookup of that key give the new value.
pub proof fn lemma_lookup_update_same(
    entries: Seq<(Seq<char>, VariantModel)>,
    idx: int,
    e: (Seq<char>, VariantModel),
)
    requires
        first_key_index(entries, e.0, idx),
    ensures
        lookup_property(entries.update(idx, e), e.0) == Some(e.1),
    decreases entries.len(),
{
    if idx > 0 {
        assert(entries.update(idx, e).drop_first() =~= entries.drop_first().update(idx - 1, e));
        assert(first_key_index(entries.drop_first(), e.0, idx - 1));
        lemma_lookup_update_same(entries.drop_first(), idx - 1, e);
    }
}

/// Replacing the first entry with a key leaves the lookup of every other key unchanged.
pub proof fn lemma_lookup_update_other(
    entries: Seq<(Seq<char>, VariantModel)>,
    idx: int,
    e: (Seq<char>, VariantModel),
    k: Seq<char>,
)
    requires
        0 <= idx < entries.len(),
        entries[idx].0 == e.0,
        k != e.0,
    ensures
        lookup_property(entries.update(idx, e), k) == lookup_property(entries, k),
    decreases entries.len(),
{
    if idx == 0 {
        assert(entries.update(idx, e).drop_first() =~= entries.drop_first());
    } else {
        assert(entries.update(idx, e).drop_first() =~= entries.drop_first().update(idx - 1, e));
        lemma_lookup_update_other(entries.drop_first(), idx - 1, e, k);
    }
}

/// Appending an entry for a key that no entry has makes its lookup give the new value.
pub proof fn lemma_lookup_push_same(entries: Seq<(Seq<char>, VariantModel)>, e: (Seq<char>, VariantModel))
    requires
        forall|j: int| 0 <= j < entries.len() ==> #[trigger] entries[j].0 != e.0,
    ensures
        lookup_property(entries.push(e), e.0) == Some(e.1),
    decreases entries.len(),
{
    if entries.len() > 0 {
        assert(entries.push(e).drop_first() =~= entries.drop_first().push(e));
        assert forall|j: int| 0 <= j < entries.drop_first().len() implies #[trigger] entries.drop_first()[j].0 != e.0 by {
            assert(entries.drop_first()[j] == entries[j + 1]);
        }
        lemma_lookup_push_same(entries.drop_first(), e);
    } else {
        assert(entries.push(e)[0] == e);
    }
}

/// Appending an entry leaves the lookup of every other key unchanged.
pub proof fn lemma_lookup_push_other(
    entries: Seq<(Seq<char>, VariantModel)>,
    e: (Seq<char>, VariantModel),
    k: Seq<char>,
)
    requires
        k != e.0,
    ensures
        lookup_property(entries.push(e), k) == lookup_property(entries, k),
    decreases entries.len(),
{
    if entries.len() > 0 {
        assert(entries.push(e).drop_first() =~= entries.drop_first().push(e));
        lemma_lookup_push_other(entries.drop_first(), e, k);
    } else {
        assert(entries.push(e).drop_first() =~= entries);
        assert(entries.push(e)[0] == e);
    }
}

/// Looking up from position `i` onward either finds the entry at `i` or moves past it.
pub proof fn lemma_lookup_skip(entries: Seq<(Seq<char>, VariantModel)>, key: Seq<char>, i: int)
    requires
        0 <= i < entries.len(),
    ensures
        lookup_property(entries.skip(i), key) == if entries[i].0 == key {
            Some(entries[i].1)
        } else {
            lookup_property(entries.skip(i + 1), key)
        },
{
    assert(entries.skip(i).drop_first() =~= entries.skip(i + 1));
}

} // verus!

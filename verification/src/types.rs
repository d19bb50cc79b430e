//! Types used to describe bitfields. These describe structure and do not hold
//! any actual values.

use vstd::prelude::*;

verus! {

/// The size of a single bit field, in bits.
pub type FieldSize = usize;

/// The name of a bit field.
pub type FieldName = String;

/// A mapping between enumeration values and their descriptions, kept as
/// (raw value, description) pairs. The mapping need not be total: raw values
/// without a description are still valid field contents.
pub type EnumMapping = Vec<(usize, String)>;

/// The mathematical content of an [`EnumMapping`].
pub open spec fn mapping_view(m: Seq<(usize, String)>) -> Seq<(nat, Seq<char>)> {
    m.map_values(|p: (usize, String)| (p.0 as nat, p.1@))
}

/// A bit field.
#[derive(Debug, PartialEq, Eq)]
pub enum Field {
    /// Reserved/unused field with the given width.
    Reserved(FieldSize),
    /// One-bit boolean - 1 is true, 0 is false.
    Boolean(FieldName),
    /// An unsigned integer field with the given width.
    Integer(FieldName, FieldSize),
    /// An enumeration with a particular size and value-name mapping.
    Enum(FieldName, FieldSize, EnumMapping),
}

/// The mathematical content of a [`Field`]: widths as `nat`, names as
/// character sequences.
pub enum FieldView {
    /// Reserved/unused field with the given width.
    Reserved(nat),
    /// One-bit boolean field.
    Boolean(Seq<char>),
    /// An unsigned integer field with the given width.
    Integer(Seq<char>, nat),
    /// An enumeration field with a width and a value-name mapping.
    Enum(Seq<char>, nat, Seq<(nat, Seq<char>)>),
}

impl FieldView {
    /// The size of the field in bits: 1 for booleans, the stored width
    /// otherwise. Independent of any enumeration mapping.
    pub open spec fn size(self) -> nat {
        match self {
            FieldView::Reserved(n) => n,
            FieldView::Boolean(_) => 1,
            FieldView::Integer(_, n) => n,
            FieldView::Enum(_, n, _) => n,
        }
    }

    /// The name of the field; `None` for reserved fields, which can never be
    /// matched by a lookup.
    pub open spec fn name(self) -> Option<Seq<char>> {
        match self {
            FieldView::Reserved(_) => None,
            FieldView::Boolean(name) => Some(name),
            FieldView::Integer(name, _) => Some(name),
            FieldView::Enum(name, _, _) => Some(name),
        }
    }
}

impl View for Field {
    type V = FieldView;

    open spec fn view(&self) -> FieldView {
        match self {
            Field::Reserved(n) => FieldView::Reserved(*n as nat),
            Field::Boolean(name) => FieldView::Boolean(name@),
            Field::Integer(name, n) => FieldView::Integer(name@, *n as nat),
            Field::Enum(name, n, m) => FieldView::Enum(name@, *n as nat, mapping_view(m@)),
        }
    }
}

fn clone_mapping(m: &EnumMapping) -> (r: EnumMapping)
    ensures
        r@ == m@,
{
    let mut r: EnumMapping = Vec::new();
    let mut i: usize = 0;
    while i < m.len()
        invariant
            i <= m.len(),
            r@ == m@.take(i as int),
        decreases m.len() - i,
    {
        let p = &m[i];
        r.push((p.0, p.1.clone()));
        proof {
            assert(r@ =~= m@.take(i + 1 as int));
        }
        i = i + 1;
    }
    proof {
        assert(m@.take(m.len() as int) =~= m@);
    }
    r
}

impl Clone for Field {
    /// Cloning preserves the field's mathematical content.
    fn clone(&self) -> (r: Field)
        ensures
            r@ == self@,
    {
        match self {
            Field::Reserved(n) => Field::Reserved(*n),
            Field::Boolean(name) => Field::Boolean(name.clone()),
            Field::Integer(name, n) => Field::Integer(name.clone(), *n),
            Field::Enum(name, n, m) => Field::Enum(name.clone(), *n, clone_mapping(m)),
        }
    }
}

impl Field {
    /// Create a new Field::Reserved.
    pub fn reserved(size: FieldSize) -> (f: Field)
        ensures
            f@ == FieldView::Reserved(size as nat),
    {
        Field::Reserved(size)
    }

    /// Create a new Field::Boolean.
    pub fn boolean(name: &str) -> (f: Field)
        ensures
            f@ == FieldView::Boolean(name@),
    {
        Field::Boolean(name.to_owned())
    }

    /// Create a new Field::Integer.
    pub fn integer(name: &str, size: FieldSize) -> (f: Field)
        ensures
            f@ == FieldView::Integer(name@, size as nat),
    {
        Field::Integer(name.to_owned(), size)
    }

    /// Create a new Field::Enum.
    pub fn enumeration(name: &str, size: FieldSize, map: EnumMapping) -> (f: Field)
        ensures
            f@ == FieldView::Enum(name@, size as nat, mapping_view(map@)),
    {
        Field::Enum(name.to_owned(), size, map)
    }

    /// Get the size in bits.
    pub fn size(&self) -> (s: FieldSize)
        ensures
            s == self@.size(),
    {
        match self {
            Field::Reserved(n) => *n,
            Field::Boolean(_) => 1,
            Field::Integer(_, n) => *n,
            Field::Enum(_, n, _) => *n,
        }
    }

    /// Get the name of the field, unless it's Field::Reserved.
    pub fn get_name(&self) -> (r: Option<String>)
        ensures
            match self@.name() {
                Some(n) => r matches Some(s) && s@ == n,
                None => r is None,
            },
    {
        match self {
            Field::Reserved(_) => None,
            Field::Boolean(name) => Some(name.clone()),
            Field::Integer(name, _) => Some(name.clone()),
            Field::Enum(name, _, _) => Some(name.clone()),
        }
    }
}

/// The views of a sequence of fields.
pub open spec fn views_of(fields: Seq<Field>) -> Seq<FieldView> {
    fields.map_values(|f: Field| f@)
}

/// The combined size in bits of a sequence of fields.
pub open spec fn total_size(fields: Seq<FieldView>) -> nat
    decreases fields.len(),
{
    if fields.len() == 0 {
        0
    } else {
        fields.first().size() + total_size(fields.drop_first())
    }
}

/// Whether some field in the sequence carries the given name.
pub open spec fn has_field(fields: Seq<FieldView>, name: Seq<char>) -> bool {
    exists|i: int| 0 <= i < fields.len() && fields[i].name() == Some(name)
}

/// The first field in declared order whose name is the given one; reserved
/// fields are skipped since they have no name.
pub open spec fn first_field(fields: Seq<FieldView>, name: Seq<char>) -> Option<FieldView>
    decreases fields.len(),
{
    if fields.len() == 0 {
        None
    } else if fields.first().name() == Some(name) {
        Some(fields.first())
    } else {
        first_field(fields.drop_first(), name)
    }
}

/// The bit offset of the first field with the given name: the combined size
/// of all fields that are less significant than it, i.e. all fields located
/// after it in the declared (most-significant-first) sequence. Zero when no
/// field carries the name.
pub open spec fn first_field_low(fields: Seq<FieldView>, name: Seq<char>) -> nat
    decreases fields.len(),
{
    if fields.len() == 0 {
        0
    } else if fields.first().name() == Some(name) {
        total_size(fields.drop_first())
    } else {
        first_field_low(fields.drop_first(), name)
    }
}

/// The inclusive bit range `(high, low)` of the first field with the given
/// name, in downto notation: bit offset 0 is the least significant bit of the
/// whole structure. For a zero-width field at offset 0 the high bound is -1,
/// which no `usize` can carry; see [`Structure::get_range`].
pub open spec fn field_range(fields: Seq<FieldView>, name: Seq<char>) -> Option<(int, int)> {
    match first_field(fields, name) {
        None => None,
        Some(f) => {
            let low = first_field_low(fields, name) as int;
            Some((low + f.size() - 1, low))
        },
    }
}

/// A field is found exactly when some field carries the name.
pub proof fn lemma_first_field_exists(fields: Seq<FieldView>, name: Seq<char>)
    ensures
        first_field(fields, name) is Some <==> has_field(fields, name),
    decreases fields.len(),
{
    if fields.len() > 0 {
        lemma_first_field_exists(fields.drop_first(), name);
        if fields.first().name() != Some(name) {
            assert(has_field(fields.drop_first(), name) ==> has_field(fields, name)) by {
                if has_field(fields.drop_first(), name) {
                    let i = choose|i: int|
                        0 <= i < fields.drop_first().len() && fields.drop_first()[i].name()
                            == Some(name);
                    assert(fields[i + 1].name() == Some(name));
                }
            }
            if has_field(fields, name) {
                let i = choose|i: int| 0 <= i < fields.len() && fields[i].name() == Some(name);
                assert(fields.drop_first()[i - 1].name() == Some(name));
            }
        }
    }
}

/// Every kind of field occupies exactly its stored width, except booleans,
/// which occupy one bit. In particular the size of an enumeration field does
/// not depend on its mapping.
pub proof fn lemma_field_sizes(
    name: Seq<char>,
    width: nat,
    m1: Seq<(nat, Seq<char>)>,
    m2: Seq<(nat, Seq<char>)>,
)
    ensures
        FieldView::Reserved(width).size() == width,
        FieldView::Boolean(name).size() == 1,
        FieldView::Integer(name, width).size() == width,
        FieldView::Enum(name, width, m1).size() == width,
        FieldView::Enum(name, width, m1).size() == FieldView::Enum(name, width, m2).size(),
{
}

/// A structure without fields has size 0.
pub proof fn lemma_empty_total_size()
    ensures
        total_size(Seq::<FieldView>::empty()) == 0,
{
}

/// Removing one field removes exactly its size.
proof fn lemma_total_size_remove(s: Seq<FieldView>, i: int)
    requires
        0 <= i < s.len(),
    ensures
        total_size(s) == s[i].size() + total_size(s.remove(i)),
    decreases s.len(),
{
    if i == 0 {
        assert(s.remove(0) =~= s.drop_first());
    } else {
        lemma_total_size_remove(s.drop_first(), i - 1);
        assert(s.remove(i).drop_first() =~= s.drop_first().remove(i - 1));
        assert(s.remove(i).first() == s.first());
        assert(s.drop_first()[i - 1] == s[i]);
    }
}

/// The combined size of a sequence of fields does not depend on their order:
/// any two sequences made of the same fields have the same combined size.
/// Only bit-position resolution depends on the order.
pub proof fn lemma_total_size_permutation(s1: Seq<FieldView>, s2: Seq<FieldView>)
    requires
        s1.to_multiset() == s2.to_multiset(),
    ensures
        total_size(s1) == total_size(s2),
    decreases s1.len(),
{
    s1.to_multiset_ensures();
    s2.to_multiset_ensures();
    if s1.len() == 0 {
        assert(s2.len() == 0);
    } else {
        let x = s1.first();
        assert(s1.contains(x));
        assert(s2.to_multiset().count(x) > 0);
        assert(s2.contains(x));
        let j: int = choose|j: int| 0 <= j < s2.len() && s2[j] == x;
        lemma_total_size_remove(s2, j);
        assert(s1.drop_first() =~= s1.remove(0));
        assert(s1.remove(0).to_multiset() =~= s1.to_multiset().remove(x));
        assert(s2.remove(j).to_multiset() =~= s2.to_multiset().remove(x));
        lemma_total_size_permutation(s1.drop_first(), s2.remove(j));
    }
}

/// The resolution rule for bit ranges: when the field at index `i` is the
/// first one in declared order carrying `name`, its low offset is the
/// combined size of the fields after it - of all fields less significant
/// than it.
pub proof fn lemma_low_offset(fields: Seq<FieldView>, name: Seq<char>, i: int)
    requires
        0 <= i < fields.len(),
        fields[i].name() == Some(name),
        forall|j: int| 0 <= j < i ==> fields[j].name() != Some(name),
    ensures
        first_field(fields, name) == Some(fields[i]),
        first_field_low(fields, name) == total_size(fields.skip(i + 1)),
{
    lemma_first_field_prefix(fields, name, i);
    assert(fields.skip(i).first() == fields[i]);
    assert(fields.skip(i).drop_first() =~= fields.skip(i + 1));
}

/// Dropping a prefix in which no field carries the name changes neither the
/// field that a lookup finds nor its bit offset.
proof fn lemma_first_field_prefix(fields: Seq<FieldView>, name: Seq<char>, i: int)
    requires
        0 <= i <= fields.len(),
        forall|j: int| 0 <= j < i ==> fields[j].name() != Some(name),
    ensures
        first_field(fields, name) == first_field(fields.skip(i), name),
        first_field_low(fields, name) == first_field_low(fields.skip(i), name),
    decreases i,
{
    if i == 0 {
        assert(fields.skip(0) =~= fields);
    } else {
        assert(fields.drop_first() =~= fields.skip(1));
        assert(forall|j: int|
            0 <= j < i - 1 ==> fields.skip(1)[j].name() == #[trigger] fields[j + 1].name());
        lemma_first_field_prefix(fields.skip(1), name, i - 1);
        assert(fields.skip(1).skip(i - 1) =~= fields.skip(i));
    }
}

/// A type made up of bit fields. The first field in `fields` is the most
/// significant; the last is the least significant (bit offset 0).
#[derive(Debug)]
pub struct Structure {
    /// The name of the structure. Generally the name of the represented
    /// register; for documentation only, not semantically load-bearing.
    pub name: String,
    /// List of components, starting with the most significant bits.
    pub fields: Vec<Field>,
}

/// The mathematical content of a [`Structure`].
pub struct StructureView {
    /// The name of the structure.
    pub name: Seq<char>,
    /// The field views, most significant first.
    pub fields: Seq<FieldView>,
}

impl View for Structure {
    type V = StructureView;

    open spec fn view(&self) -> StructureView {
        StructureView { name: self.name@, fields: views_of(self.fields@) }
    }
}

impl Structure {
    /// Create a new Structure with the given name and fields, kept in the
    /// given order. No validation is done: duplicate names, zero-width fields
    /// and empty sequences are all accepted as-is.
    pub fn new(name: &str, fields: &[Field]) -> (s: Structure)
        ensures
            s@.name == name@,
            s@.fields == views_of(fields@),
    {
        let mut v: Vec<Field> = Vec::new();
        let mut i: usize = 0;
        while i < fields.len()
            invariant
                i <= fields.len(),
                v@.len() == i,
                forall|j: int| 0 <= j < i ==> #[trigger] (v@[j]@) == fields@[j]@,
            decreases fields.len() - i,
        {
            v.push(fields[i].clone());
            i = i + 1;
        }
        proof {
            assert(views_of(v@) =~= views_of(fields@));
        }
        Structure { name: name.to_owned(), fields: v }
    }

    /// Append a field to an existing Structure. The new field becomes the
    /// least-significant one.
    pub fn append(&mut self, field: Field)
        ensures
            final(self)@.name == old(self)@.name,
            final(self)@.fields == old(self)@.fields.push(field@),
    {
        let ghost before = self.fields@;
        self.fields.push(field);
        proof {
            assert(views_of(self.fields@) =~= views_of(before).push(field@));
        }
    }

    /// Get the size of all the fields combined. This is distinct from the
    /// size of the (integer) value the structure is created from.
    pub fn size(&self) -> (n: FieldSize)
        requires
            total_size(self@.fields) <= usize::MAX,
        ensures
            n == total_size(self@.fields),
    {
        let ghost views = self@.fields;
        proof {
            assert(views.skip(0) =~= views);
        }
        let mut acc: usize = 0;
        let mut i: usize = 0;
        while i < self.fields.len()
            invariant
                i <= self.fields.len(),
                views == self@.fields,
                total_size(views) <= usize::MAX,
                acc + total_size(views.skip(i as int)) == total_size(views),
            decreases self.fields.len() - i,
        {
            proof {
                assert(views.skip(i as int).drop_first() =~= views.skip(i + 1 as int));
                assert(views.skip(i as int).first() == views[i as int]);
            }
            acc = acc + self.fields[i].size();
            i = i + 1;
        }
        proof {
            assert(views.skip(views.len() as int) =~= Seq::<FieldView>::empty());
        }
        acc
    }

    /// Retrieve a copy of the first field in declared order whose name is the
    /// given one. Reserved fields are skipped since they have no name. `None`
    /// if no match.
    pub fn get_field(&self, field_name: &str) -> (r: Option<Field>)
        ensures
            r is Some <==> has_field(self@.fields, field_name@),
            match first_field(self@.fields, field_name@) {
                None => r is None,
                Some(fv) => r matches Some(f) && f@ == fv,
            },
    {
        let ghost views = self@.fields;
        proof {
            lemma_first_field_exists(views, field_name@);
        }
        let key: String = field_name.to_owned();
        match find_field_index(&self.fields, &key) {
            None => {
                proof {
                    lemma_first_field_prefix(views, field_name@, views.len() as int);
                    assert(views.skip(views.len() as int) =~= Seq::<FieldView>::empty());
                }
                None
            },
            Some(i) => {
                proof {
                    lemma_low_offset(views, field_name@, i as int);
                }
                Some(self.fields[i].clone())
            },
        }
    }

    /// Get the range of bits for the specified field, if it exists.
    ///
    /// The resulting range is in downto notation, so (3, 0) means the four
    /// least significant bits. The low offset of a field is the combined size
    /// of all fields that are less significant than it; when several fields
    /// share a name, the first one in declared order wins, as in
    /// [`Structure::get_field`].
    ///
    /// The caller must keep the range representable: the bit offsets have to
    /// fit in `usize`, and a zero-width field at offset 0 is excluded, since
    /// its high bound would be -1.
    pub fn get_range(&self, field_name: &str) -> (r: Option<(usize, usize)>)
        requires
            field_range(self@.fields, field_name@) matches Some(hl) ==> 0 <= hl.0 <= usize::MAX
                && hl.1 <= usize::MAX,
        ensures
            r is Some <==> has_field(self@.fields, field_name@),
            match field_range(self@.fields, field_name@) {
                None => r is None,
                Some(hl) => r matches Some(p) && p.0 == hl.0 && p.1 == hl.1,
            },
    {
        let ghost views = self@.fields;
        proof {
            lemma_first_field_exists(views, field_name@);
        }
        let key: String = field_name.to_owned();
        match find_field_index(&self.fields, &key) {
            None => {
                proof {
                    lemma_first_field_prefix(views, field_name@, views.len() as int);
                    assert(views.skip(views.len() as int) =~= Seq::<FieldView>::empty());
                }
                None
            },
            Some(i) => {
                proof {
                    lemma_low_offset(views, field_name@, i as int);
                }
                let n: usize = self.fields.len();
                let mut low: usize = 0;
                let mut j: usize = i + 1;
                while j < n
                    invariant
                        i < j <= n,
                        n == self.fields.len(),
                        views == self@.fields,
                        low + total_size(views.skip(j as int)) == total_size(
                            views.skip(i + 1 as int),
                        ),
                        total_size(views.skip(i + 1 as int)) <= usize::MAX,
                    decreases n - j,
                {
                    proof {
                        assert(views.skip(j as int).first() == views[j as int]);
                        assert(views.skip(j as int).drop_first() =~= views.skip(j + 1 as int));
                    }
                    low = low + self.fields[j].size();
                    j = j + 1;
                }
                proof {
                    assert(views.skip(n as int) =~= Seq::<FieldView>::empty());
                }
                let width: usize = self.fields[i].size();
                let high: usize = if width == 0 {
                    low - 1
                } else {
                    low + (width - 1)
                };
                Some((high, low))
            },
        }
    }
}

/// The index of the first field whose name is `key`, if any, together with
/// the guarantee that no earlier field carries it.
fn find_field_index(fields: &Vec<Field>, key: &String) -> (r: Option<usize>)
    ensures
        match r {
            None => forall|j: int|
                0 <= j < fields@.len() ==> views_of(fields@)[j].name() != Some(key@),
            Some(i) => 0 <= i < fields@.len() && views_of(fields@)[i as int].name() == Some(key@)
                && forall|j: int| 0 <= j < i ==> views_of(fields@)[j].name() != Some(key@),
        },
{
    let mut i: usize = 0;
    while i < fields.len()
        invariant
            i <= fields.len(),
            forall|j: int| 0 <= j < i ==> views_of(fields@)[j].name() != Some(key@),
        decreases fields.len() - i,
    {
        if name_matches(&fields[i], key) {
            return Some(i);
        }
        i = i + 1;
    }
    None
}

/// Whether the field carries the given name; reserved fields never match.
fn name_matches(f: &Field, key: &String) -> (b: bool)
    ensures
        b == (f@.name() == Some(key@)),
{
    match f {
        Field::Reserved(_) => false,
        Field::Boolean(name) => *name == *key,
        Field::Integer(name, _) => *name == *key,
        Field::Enum(name, _, _) => *name == *key,
    }
}

} // verus!

use vstd::prelude::*;

use crate::codec::{
    closed_field, colons_escaped, cpe_prefix, cpe_version, escaped, join_fields, lemma_join_split,
    lemma_fields_upto_closed, lemma_split_join, push_char, serialize_fields, split_fields, split_unescaped, views,
    well_formed_name,
};
use crate::order::{code_points, compare_codes, lemma_codes_injective, name_order};
use crate::error::CpeError;
use vstd::std_specs::cmp::PartialEqSpec;

verus! {

/// A structured name: its twelve fields. Each field holds its text as written in the
/// name, escape backslashes included, so the name reads back unchanged.
#[derive(Debug, Clone)]
pub struct Cpe23Name {
    pub cpe_version: String,
    pub part: String,
    pub vendor: String,
    pub product: String,
    pub version: String,
    pub update: String,
    pub edition: String,
    pub language: String,
    pub sw_edition: String,
    pub target_sw: String,
    pub target_hw: String,
    pub other: String,
}

impl Cpe23Name {
    /// The twelve fields in order.
    pub open spec fn fields(&self) -> Seq<Seq<char>> {
        seq![
            self.cpe_version@,
            self.part@,
            self.vendor@,
            self.product@,
            self.version@,
            self.update@,
            self.edition@,
            self.language@,
            self.sw_edition@,
            self.target_sw@,
            self.target_hw@,
            self.other@,
        ]
    }

    /// The canonical text of the name.
    pub open spec fn name_view(&self) -> Seq<char> {
        serialize_fields(self.fields())
    }

    /// Reads a structured name. Fails with `MalformedName` unless the string has
    /// exactly thirteen segments, the first `cpe` and the second `2.3`.
    pub fn parse(cpe_string: &str) -> (r: Result<Cpe23Name, CpeError>)
        ensures
            r is Ok <==> well_formed_name(cpe_string@),
            r matches Ok(n) ==> n.fields() == split_fields(cpe_string@).drop_first(),
            r matches Ok(n) ==> forall|k: int| 0 <= k < 11 ==> closed_field(#[trigger] n.fields()[k]),
            r matches Ok(n) ==> colons_escaped(n.other@),
            r matches Err(e) ==> e is MalformedName,
    {
        proof {
            lemma_fields_upto_closed(cpe_string@, cpe_string@.len() as int);
        }
        let parts = split_unescaped(cpe_string);
        proof {
            assert(parts@.len() == views(parts@).len());
        }
        if parts.len() != 13 {
            return Err(CpeError::MalformedName);
        }
        let prefix = String::from_str("cpe");
        let version = String::from_str("2.3");
        proof {
            reveal_strlit("cpe");
            reveal_strlit("2.3");
            assert(prefix@ =~= cpe_prefix());
            assert(version@ =~= cpe_version());
            assert(views(parts@)[0] == parts@[0]@);
            assert(views(parts@)[1] == parts@[1]@);
        }
        if parts[0] != prefix || parts[1] != version {
            return Err(CpeError::MalformedName);
        }
        let n = Cpe23Name {
            cpe_version: parts[1].clone(),
            part: parts[2].clone(),
            vendor: parts[3].clone(),
            product: parts[4].clone(),
            version: parts[5].clone(),
            update: parts[6].clone(),
            edition: parts[7].clone(),
            language: parts[8].clone(),
            sw_edition: parts[9].clone(),
            target_sw: parts[10].clone(),
            target_hw: parts[11].clone(),
            other: parts[12].clone(),
        };
        assert(n.fields() =~= split_fields(cpe_string@).drop_first());
        assert forall|k: int| 0 <= k < 11 implies closed_field(#[trigger] n.fields()[k]) by {
            assert(n.fields()[k] == split_fields(cpe_string@)[k + 1]);
        }
        assert(n.other@ == split_fields(cpe_string@).last());
        Ok(n)
    }

    /// Reads a structured name that is known to be well formed.
    pub fn new(cpe_string: &str) -> (r: Self)
        requires
            well_formed_name(cpe_string@),
        ensures
            r.fields() == split_fields(cpe_string@).drop_first(),
            forall|k: int| 0 <= k < 11 ==> closed_field(#[trigger] r.fields()[k]),
            colons_escaped(r.other@),
    {
        match Cpe23Name::parse(cpe_string) {
            Ok(n) => n,
            Err(_) => unreached(),
        }
    }

    /// The canonical text of the name: the prefix and the twelve fields, with a
    /// colon between each two.
    pub fn get_name(&self) -> (r: String)
        ensures
            r@ == self.name_view(),
    {
        let mut out = String::from_str("cpe");
        proof {
            reveal_strlit("cpe");
        }
        let ghost fs = self.fields();
        assert(out@ =~= join_fields(seq![cpe_prefix()].add(fs.take(0))));
        let parts: [&String; 12] = [
            &self.cpe_version,
            &self.part,
            &self.vendor,
            &self.product,
            &self.version,
            &self.update,
            &self.edition,
            &self.language,
            &self.sw_edition,
            &self.target_sw,
            &self.target_hw,
            &self.other,
        ];
        let mut i: usize = 0;
        while i < 12
            invariant
                0 <= i <= 12,
                fs == self.fields(),
                forall|k: int| 0 <= k < 12 ==> parts@[k]@ == fs[k],
                out@ == join_fields(seq![cpe_prefix()].add(fs.take(i as int))),
            decreases 12 - i,
        {
            push_char(&mut out, ':');
            out.append(parts[i].as_str());
            proof {
                let a = seq![cpe_prefix()].add(fs.take(i as int + 1));
                assert(a.drop_last() =~= seq![cpe_prefix()].add(fs.take(i as int)));
                assert(a.last() == fs[i as int]);
            }
            i = i + 1;
        }
        assert(fs.take(12) =~= fs);
        out
    }

    /// The weak identity key: vendor and product.
    pub fn get_vendor_product_tuple(&self) -> (r: (&String, &String))
        ensures
            r.0 == &self.vendor,
            r.1 == &self.product,
    {
        (&self.vendor, &self.product)
    }

    /// The eight fields that follow the product.
    pub fn get_version_tuple(&self) -> (r: (&String, &String, &String, &String, &String, &String, &String, &String))
        ensures
            r == (&self.version, &self.update, &self.edition, &self.language, &self.sw_edition,
                &self.target_sw, &self.target_hw, &self.other),
    {
        (&self.version, &self.update, &self.edition, &self.language, &self.sw_edition,
            &self.target_sw, &self.target_hw, &self.other)
    }
}

impl PartialEq for Cpe23Name {
    /// Names are equal when vendor and product are: the weak identity.
    fn eq(&self, other: &Cpe23Name) -> (r: bool)
        ensures
            r == (self.vendor@ == other.vendor@ && self.product@ == other.product@),
    {
        self.vendor == other.vendor && self.product == other.product
    }
}

impl vstd::std_specs::cmp::PartialEqSpecImpl for Cpe23Name {
    open spec fn obeys_eq_spec() -> bool {
        true
    }

    open spec fn eq_spec(&self, other: &Cpe23Name) -> bool {
        self.vendor@ == other.vendor@ && self.product@ == other.product@
    }
}

impl Eq for Cpe23Name {
}

/// The structured part of a dictionary record.
#[derive(Debug, Clone)]
pub struct Cpe23Entry {
    cpe23_name: Cpe23Name,
    cpe23_deprecated: bool,
    cpe23_deprecated_type: Option<String>,
    cpe23_deprecated_date: Option<String>,
    cpe23_deprecated_by: Option<String>,
}

impl Cpe23Entry {
    pub closed spec fn name(&self) -> Cpe23Name {
        self.cpe23_name
    }

    pub closed spec fn deprecated(&self) -> bool {
        self.cpe23_deprecated
    }

    pub closed spec fn deprecated_type(&self) -> Option<String> {
        self.cpe23_deprecated_type
    }

    pub closed spec fn deprecated_date(&self) -> Option<String> {
        self.cpe23_deprecated_date
    }

    /// The raw reference to the record that replaces this one.
    pub closed spec fn replaced_by(&self) -> Option<String> {
        self.cpe23_deprecated_by
    }

    pub fn new(
        cpe23_name: Cpe23Name,
        cpe23_deprecated: bool,
        cpe23_deprecated_type: Option<String>,
        cpe23_deprecated_date: Option<String>,
        cpe23_deprecated_by: Option<String>,
    ) -> (r: Self)
        ensures
            r.name() == cpe23_name,
            r.deprecated() == cpe23_deprecated,
            r.deprecated_type() == cpe23_deprecated_type,
            r.deprecated_date() == cpe23_deprecated_date,
            r.replaced_by() == cpe23_deprecated_by,
    {
        Cpe23Entry {
            cpe23_name,
            cpe23_deprecated,
            cpe23_deprecated_type,
            cpe23_deprecated_date,
            cpe23_deprecated_by,
        }
    }

    pub fn get_cp23_parts(&self) -> (r: &Cpe23Name)
        ensures
            r == self.name(),
    {
        &self.cpe23_name
    }

    pub fn is_deprecated(&self) -> (r: bool)
        ensures
            r == self.deprecated(),
    {
        self.cpe23_deprecated
    }

    pub fn get_deprecated_type(&self) -> (r: &Option<String>)
        ensures
            r == self.deprecated_type(),
    {
        &self.cpe23_deprecated_type
    }

    pub fn get_deprecated_date(&self) -> (r: &Option<String>)
        ensures
            r == self.deprecated_date(),
    {
        &self.cpe23_deprecated_date
    }

    pub fn get_deprecated_by(&self) -> (r: &Option<String>)
        ensures
            r == self.replaced_by(),
    {
        &self.cpe23_deprecated_by
    }
}

/// One dictionary record: the legacy name, its deprecation, and the structured part.
#[derive(Debug, Clone)]
pub struct CpeEntry {
    cpe_name: String,
    deprecated: bool,
    deprecated_date: Option<String>,
    pub cpe23: Cpe23Entry,
}

impl CpeEntry {
    pub closed spec fn legacy_name(&self) -> Seq<char> {
        self.cpe_name@
    }

    pub closed spec fn deprecated(&self) -> bool {
        self.deprecated
    }

    pub closed spec fn deprecated_date(&self) -> Option<String> {
        self.deprecated_date
    }

    /// The structured name of the record.
    pub open spec fn name(&self) -> Cpe23Name {
        self.structured().name()
    }

    /// The canonical text of the structured name, by which records are ordered.
    pub open spec fn canonical(&self) -> Seq<char> {
        self.name().name_view()
    }

    /// The weak identity key: vendor and product.
    pub open spec fn key(&self) -> (Seq<char>, Seq<char>) {
        (self.name().vendor@, self.name().product@)
    }

    pub closed spec fn structured(&self) -> Cpe23Entry {
        self.cpe23
    }

    pub open spec fn replaced_by(&self) -> Option<String> {
        self.structured().replaced_by()
    }

    /// Whether `name` is the legacy name or the canonical structured name.
    pub open spec fn named(&self, name: Seq<char>) -> bool {
        name == self.legacy_name() || name == self.canonical()
    }

    pub fn new(cpe_name: String, deprecated: bool, deprecated_date: Option<String>, cpe23: Cpe23Entry) -> (r: Self)
        ensures
            r.legacy_name() == cpe_name@,
            r.deprecated() == deprecated,
            r.deprecated_date() == deprecated_date,
            r.structured() == cpe23,
            r.name() == cpe23.name(),
            r.replaced_by() == cpe23.replaced_by(),
    {
        CpeEntry { cpe_name, deprecated, deprecated_date, cpe23 }
    }

    pub fn get_names(&self) -> (r: (&String, String))
        ensures
            r.0@ == self.legacy_name(),
            r.1@ == self.canonical(),
    {
        (&self.cpe_name, self.cpe23.cpe23_name.get_name())
    }

    pub fn get_cpe_name(&self) -> (r: &String)
        ensures
            r@ == self.legacy_name(),
    {
        &self.cpe_name
    }

    pub fn get_cpe23_name(&self) -> (r: String)
        ensures
            r@ == self.canonical(),
    {
        self.cpe23.cpe23_name.get_name()
    }

    pub fn get_deprecated_date(&self) -> (r: &Option<String>)
        ensures
            r == self.deprecated_date(),
    {
        &self.deprecated_date
    }

    pub fn deprecated_by(&self) -> (r: &Option<String>)
        ensures
            r == self.replaced_by(),
    {
        &self.cpe23.cpe23_deprecated_by
    }

    pub fn is_deprecated(&self) -> (r: bool)
        ensures
            r == self.deprecated(),
    {
        self.deprecated
    }

    /// Whether `name` names this record, by its legacy or its structured name.
    pub fn has_name(&self, name: &String) -> (r: bool)
        ensures
            r == self.named(name@),
    {
        let structured = self.get_cpe23_name();
        *name == self.cpe_name || *name == structured
    }

    pub fn has_vendor(&self, vendor_name: &String) -> (r: bool)
        ensures
            r == (self.name().vendor@ == vendor_name@),
    {
        self.cpe23.cpe23_name.vendor == *vendor_name
    }

    pub fn get_vendor(&self) -> (r: &String)
        ensures
            r == &self.name().vendor,
    {
        &self.cpe23.cpe23_name.vendor
    }

    pub fn has_product(&self, product_name: &String) -> (r: bool)
        ensures
            r == (self.name().product@ == product_name@),
    {
        self.cpe23.cpe23_name.product == *product_name
    }

    pub fn get_product(&self) -> (r: &String)
        ensures
            r == &self.name().product,
    {
        &self.cpe23.cpe23_name.product
    }

    pub fn get_vendor_product(&self) -> (r: (&String, &String))
        ensures
            (r.0@, r.1@) == self.key(),
    {
        self.cpe23.cpe23_name.get_vendor_product_tuple()
    }

    /// The structured part of the record.
    pub fn get_cpe23(&self) -> (r: &Cpe23Entry)
        ensures
            r == self.structured(),
    {
        &self.cpe23
    }

    pub fn get_cpe23_parts(&self) -> (r: &Cpe23Name)
        ensures
            r == self.name(),
    {
        self.cpe23.get_cp23_parts()
    }
}

impl PartialEq for CpeEntry {
    /// Records are equal when their weak identity keys are.
    fn eq(&self, other: &CpeEntry) -> (r: bool)
        ensures
            r == (self.key() == other.key()),
    {
        self.cpe23.cpe23_name.vendor == other.cpe23.cpe23_name.vendor
            && self.cpe23.cpe23_name.product == other.cpe23.cpe23_name.product
    }
}

impl vstd::std_specs::cmp::PartialEqSpecImpl for CpeEntry {
    open spec fn obeys_eq_spec() -> bool {
        true
    }

    open spec fn eq_spec(&self, other: &CpeEntry) -> bool {
        self.key() == other.key()
    }
}

impl Eq for CpeEntry {
}

impl PartialOrd for CpeEntry {
    /// Records are ordered by canonical name, byte by byte, while equality stays the
    /// weak identity key: two records of one key with different names are equal and
    /// yet ordered.
    fn partial_cmp(&self, other: &CpeEntry) -> (r: Option<core::cmp::Ordering>)
        ensures
            r == Some(name_order(self.canonical(), other.canonical())),
    {
        let a = code_points(self.get_cpe23_name().as_str());
        let b = code_points(other.get_cpe23_name().as_str());
        let r = compare_codes(&a, &b);
        proof {
            if a@ == b@ {
                lemma_codes_injective(self.canonical(), other.canonical());
            }
        }
        Some(r)
    }
}

impl vstd::std_specs::cmp::PartialOrdSpecImpl for CpeEntry {
    open spec fn obeys_partial_cmp_spec() -> bool {
        true
    }

    open spec fn partial_cmp_spec(&self, other: &CpeEntry) -> Option<core::cmp::Ordering> {
        Some(name_order(self.canonical(), other.canonical()))
    }
}

/// Two records are equal exactly when vendor and product agree, whatever their
/// other fields hold.
pub proof fn lemma_weak_equality(a: CpeEntry, b: CpeEntry)
    ensures
        a.eq_spec(&b) <==> (a.name().vendor@ == b.name().vendor@ && a.name().product@
            == b.name().product@),
{
}

/// A structured name reads back as the string it was read from.
pub proof fn lemma_round_trip(s: Seq<char>)
    requires
        well_formed_name(s),
    ensures
        serialize_fields(split_fields(s).drop_first()) == s,
{
    let parts = split_fields(s);
    assert(seq![cpe_prefix()].add(parts.drop_first()) =~= parts);
    lemma_join_split(s);
}

/// Escaped colons stay inside their field: a name of version `2.3` whose fields are
/// closed is well formed as text, and reads back as the same twelve fields.
pub proof fn lemma_escaped_colon(n: Cpe23Name)
    requires
        n.cpe_version@ == cpe_version(),
        forall|k: int| 0 <= k < 12 ==> closed_field(#[trigger] n.fields()[k]),
    ensures
        well_formed_name(n.name_view()),
        split_fields(n.name_view()).drop_first() == n.fields(),
{
    let fs = seq![cpe_prefix()].add(n.fields());
    let c = cpe_prefix();
    assert(!escaped(c, 3));
    assert(closed_field(c));
    assert forall|k: int| 0 <= k < fs.len() implies closed_field(#[trigger] fs[k]) by {
        if k > 0 {
            assert(fs[k] == n.fields()[k - 1]);
        }
    }
    lemma_split_join(fs);
    assert(fs.drop_first() =~= n.fields());
}

} // verus!

use vstd::prelude::*;

use crate::cpestructures::{Cpe23Name, CpeEntry};
use crate::grammar::{regex_matches, CpeGrammar};

verus! {

/// One of the twelve fields of a structured name.
#[derive(Debug, Clone, Copy, PartialEq, Eq, Structural)]
pub enum CpeField {
    CpeVersion,
    Part,
    Vendor,
    Product,
    Version,
    Update,
    Edition,
    Language,
    SwEdition,
    TargetSw,
    TargetHw,
    Other,
}

/// The text of field `f` of `n`.
pub open spec fn field_value(n: Cpe23Name, f: CpeField) -> Seq<char> {
    match f {
        CpeField::CpeVersion => n.cpe_version@,
        CpeField::Part => n.part@,
        CpeField::Vendor => n.vendor@,
        CpeField::Product => n.product@,
        CpeField::Version => n.version@,
        CpeField::Update => n.update@,
        CpeField::Edition => n.edition@,
        CpeField::Language => n.language@,
        CpeField::SwEdition => n.sw_edition@,
        CpeField::TargetSw => n.target_sw@,
        CpeField::TargetHw => n.target_hw@,
        CpeField::Other => n.other@,
    }
}

impl Cpe23Name {
    /// The text of one field.
    pub fn get_field(&self, f: CpeField) -> (r: &String)
        ensures
            r@ == field_value(*self, f),
    {
        match f {
            CpeField::CpeVersion => &self.cpe_version,
            CpeField::Part => &self.part,
            CpeField::Vendor => &self.vendor,
            CpeField::Product => &self.product,
            CpeField::Version => &self.version,
            CpeField::Update => &self.update,
            CpeField::Edition => &self.edition,
            CpeField::Language => &self.language,
            CpeField::SwEdition => &self.sw_edition,
            CpeField::TargetSw => &self.target_sw,
            CpeField::TargetHw => &self.target_hw,
            CpeField::Other => &self.other,
        }
    }
}

/// The lower-case form of `s`.
pub uninterp spec fn lower_of(s: Seq<char>) -> Seq<char>;

/// Relies on str::to_lowercase: the lower-case form of `s`, which depends on its
/// characters alone.
#[verifier::external_body]
fn lowercase(s: &str) -> (r: String)
    ensures
        r@ == lower_of(s@),
{
    s.to_lowercase()
}

/// Whether a filter expression is negated: it starts with `!`.
pub open spec fn expr_negated(expr: Seq<char>) -> bool {
    expr.len() > 0 && expr[0] == '!'
}

/// The literal of a filter expression: the expression without its negation mark.
pub open spec fn expr_literal(expr: Seq<char>) -> Seq<char> {
    if expr_negated(expr) {
        expr.drop_first()
    } else {
        expr
    }
}

/// Whether a field value passes a filter expression: it equals the lower-cased
/// literal, or, for a negated expression, it does not.
pub open spec fn expression_passes(value: Seq<char>, expr: Seq<char>) -> bool {
    (value == lower_of(expr_literal(expr))) != expr_negated(expr)
}

/// A filter on one field, with its literal lower-cased once.
#[derive(Debug, Clone)]
pub struct FieldFilter {
    pub field: CpeField,
    pub negated: bool,
    pub literal: String,
}

impl FieldFilter {
    /// Whether a name passes this filter.
    pub open spec fn passes_spec(&self, n: Cpe23Name) -> bool {
        (field_value(n, self.field) == self.literal@) != self.negated
    }

    /// Compiles a filter expression: a literal, or `!` and a literal.
    pub fn new(field: CpeField, expr: &str) -> (r: FieldFilter)
        ensures
            r.field == field,
            r.negated == expr_negated(expr@),
            r.literal@ == lower_of(expr_literal(expr@)),
            forall|n: Cpe23Name| #[trigger]
                r.passes_spec(n) == expression_passes(field_value(n, field), expr@),
    {
        let len = expr.unicode_len();
        if len > 0 && expr.get_char(0) == '!' {
            let rest = expr.substring_char(1, len);
            assert(rest@ =~= expr@.drop_first());
            FieldFilter { field, negated: true, literal: lowercase(rest) }
        } else {
            FieldFilter { field, negated: false, literal: lowercase(expr) }
        }
    }

    /// Whether a name passes this filter.
    pub fn passes(&self, n: &Cpe23Name) -> (r: bool)
        ensures
            r == self.passes_spec(*n),
    {
        let value = n.get_field(self.field);
        (*value == self.literal) != self.negated
    }
}

/// Whether `value` passes the filter expression `expr`.
pub fn field_matches(value: &String, expr: &str) -> (r: bool)
    ensures
        r == expression_passes(value@, expr@),
{
    let len = expr.unicode_len();
    if len > 0 && expr.get_char(0) == '!' {
        let rest = expr.substring_char(1, len);
        assert(rest@ =~= expr@.drop_first());
        *value != lowercase(rest)
    } else {
        *value == lowercase(expr)
    }
}

/// For a literal that is not itself negated, the negated expression passes exactly
/// the values that the literal does not, and both compare with the lower-cased
/// literal.
pub proof fn lemma_negation_complement(value: Seq<char>, literal: Seq<char>)
    requires
        !expr_negated(literal),
    ensures
        expression_passes(value, seq!['!'].add(literal)) == !expression_passes(value, literal),
        expression_passes(value, literal) == (value == lower_of(literal)),
        expression_passes(value, seq!['!'].add(literal)) == (value != lower_of(literal)),
{
    assert(seq!['!'].add(literal).drop_first() =~= literal);
}

/// A wanted value of a flag: `Some` to require it, `None` to accept either.
pub open spec fn flag_passes(want: Option<bool>, actual: bool) -> bool {
    match want {
        Some(w) => actual == w,
        None => true,
    }
}

/// What a record must satisfy to be selected.
#[derive(Debug, Clone)]
pub struct FilterConfig {
    /// Filters on fields of the structured name; all must pass.
    pub field_filters: Vec<FieldFilter>,
    /// Whether the canonical name must match the grammar, must not, or either.
    pub validity: Option<bool>,
    /// Whether the record must be deprecated, must not be, or either.
    pub deprecation: Option<bool>,
}

impl FilterConfig {
    /// Whether all field filters pass on `n`.
    pub open spec fn fields_pass(&self, n: Cpe23Name) -> bool {
        forall|k: int| 0 <= k < self.field_filters@.len() ==> #[trigger] self.field_filters@[k].passes_spec(n)
    }

    /// Whether `e` is selected, given whether its canonical name matches the grammar.
    pub open spec fn passes_spec(&self, e: CpeEntry, valid: bool) -> bool {
        &&& self.fields_pass(e.name())
        &&& flag_passes(self.validity, valid)
        &&& flag_passes(self.deprecation, e.deprecated())
    }

    /// Whether `e` is selected under `pattern`.
    pub open spec fn selects(&self, e: CpeEntry, pattern: Seq<char>) -> bool {
        self.passes_spec(e, regex_matches(pattern, e.canonical()))
    }

    /// The positions among the first `n` records that are selected, in order.
    pub open spec fn selection(&self, entries: Seq<CpeEntry>, pattern: Seq<char>, n: int) -> Seq<usize>
        decreases n,
    {
        if n <= 0 {
            Seq::<usize>::empty()
        } else {
            let prev = self.selection(entries, pattern, n - 1);
            if self.selects(entries[n - 1], pattern) {
                prev.push((n - 1) as usize)
            } else {
                prev
            }
        }
    }

    /// Whether `e` is selected, given whether its canonical name matches the grammar.
    pub fn record_passes(&self, e: &CpeEntry, valid: bool) -> (r: bool)
        ensures
            r == self.passes_spec(*e, valid),
    {
        match self.validity {
            Some(w) => {
                if valid != w {
                    return false;
                }
            },
            None => {},
        }
        match self.deprecation {
            Some(w) => {
                if e.is_deprecated() != w {
                    return false;
                }
            },
            None => {},
        }
        let n = e.get_cpe23_parts();
        let mut i: usize = 0;
        while i < self.field_filters.len()
            invariant
                i <= self.field_filters@.len(),
                n == e.name(),
                forall|k: int| 0 <= k < i ==> #[trigger] self.field_filters@[k].passes_spec(*n),
            decreases self.field_filters@.len() - i,
        {
            if !self.field_filters[i].passes(n) {
                return false;
            }
            i = i + 1;
        }
        true
    }

    /// The positions of the selected records, in order. The grammar is consulted only
    /// when the configuration asks about validity.
    pub fn select(&self, entries: &Vec<CpeEntry>, grammar: &CpeGrammar) -> (r: Vec<usize>)
        ensures
            r@ == self.selection(entries@, grammar.pattern(), entries@.len() as int),
    {
        let mut out: Vec<usize> = Vec::new();
        let mut i: usize = 0;
        while i < entries.len()
            invariant
                i <= entries@.len(),
                out@ == self.selection(entries@, grammar.pattern(), i as int),
            decreases entries@.len() - i,
        {
            let e = &entries[i];
            let valid = match self.validity {
                Some(_) => {
                    let name = e.get_cpe23_name();
                    grammar.is_match(name.as_str())
                },
                None => false,
            };
            if self.record_passes(e, valid) {
                out.push(i);
            }
            i = i + 1;
        }
        out
    }
}

} // verus!

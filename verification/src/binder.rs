use vstd::prelude::*;

use crate::style::{cased, CaseStyle};

verus! {

/// One case of a variant set, as handed to the binder: its identifier text and
/// whether the case carries a payload (which the binder refuses).
pub struct VariantDef {
    pub name: String,
    pub has_payload: bool,
}

/// The ways a variant set can be refused at bind time.  These are definition
/// errors: no binding is produced, so nothing downstream can run on a bad set.
#[derive(Clone, Copy, Debug, PartialEq, Eq, Structural)]
pub enum DefinitionError {
    /// A case of the variant set carries a payload.
    PayloadVariant,
    /// A free-form style token matched none of the twelve recognised styles.
    UnknownStyle,
    /// Two cases were assigned the same label after the transform.
    LabelCollision,
}

/// The label a variant identifier is bound to: the identifier text itself, or
/// its rendering in the chosen naming convention.
pub open spec fn spec_label_of(name: Seq<char>, style: Option<CaseStyle>) -> Seq<char> {
    match style {
        Option::None => name,
        Option::Some(c) => cased(c.style_index(), name),
    }
}

/// The labels a whole variant set is bound to, in variant order.
pub open spec fn expected_labels(variants: Seq<VariantDef>, style: Option<CaseStyle>) -> Seq<
    Seq<char>,
> {
    Seq::new(variants.len(), |i: int| spec_label_of(variants[i].name@, style))
}

/// Whether some case of the set carries a payload.
pub open spec fn has_payload_case(variants: Seq<VariantDef>) -> bool {
    exists|i: int| 0 <= i < variants.len() && variants[i].has_payload
}

/// Whether two distinct cases end up with the same label after the transform.
pub open spec fn has_label_collision(variants: Seq<VariantDef>, style: Option<CaseStyle>) -> bool {
    exists|i: int, j: int|
        0 <= i < j < variants.len() && expected_labels(variants, style)[i] == expected_labels(
            variants,
            style,
        )[j]
}

/// Exactly what binding a variant set yields: a binding carrying the names and
/// the derived labels when the set is well formed, and the precise definition
/// error otherwise.
pub open spec fn binds_to(
    variants: Seq<VariantDef>,
    style: Option<CaseStyle>,
    r: Result<LabelBinding, DefinitionError>,
) -> bool {
    match r {
        Result::Ok(b) => {
            &&& !has_payload_case(variants)
            &&& !has_label_collision(variants, style)
            &&& b.spec_names() == variants.map_values(|v: VariantDef| v.name@)
            &&& b.spec_labels() == expected_labels(variants, style)
        },
        Result::Err(DefinitionError::PayloadVariant) => has_payload_case(variants),
        Result::Err(DefinitionError::LabelCollision) => {
            &&& !has_payload_case(variants)
            &&& has_label_collision(variants, style)
        },
        Result::Err(DefinitionError::UnknownStyle) => false,
    }
}

/// A validated binding of a variant set: one label per variant, labels pairwise
/// distinct, variants addressed by their position in the set.
pub struct LabelBinding {
    names: Vec<String>,
    labels: Vec<String>,
}

impl LabelBinding {
    /// The variant identifiers, in definition order.
    pub closed spec fn spec_names(self) -> Seq<Seq<char>> {
        self.names@.map_values(|s: String| s@)
    }

    /// The bound labels, in variant order.
    pub closed spec fn spec_labels(self) -> Seq<Seq<char>> {
        self.labels@.map_values(|s: String| s@)
    }

    #[verifier::type_invariant]
    closed spec fn wf(self) -> bool {
        &&& self.names@.len() == self.labels@.len()
        &&& forall|i: int, j: int|
            0 <= i < j < self.labels@.len() ==> self.labels@[i]@ != self.labels@[j]@
    }

    /// Bind a variant set: refuse payload-bearing cases and label collisions,
    /// otherwise derive one label per variant, in order.
    pub fn bind(variants: &Vec<VariantDef>, style: Option<CaseStyle>) -> (r: Result<
        LabelBinding,
        DefinitionError,
    >)
        ensures
            binds_to(variants@, style, r),
    {
        let n = variants.len();
        let mut names: Vec<String> = Vec::new();
        let mut labels: Vec<String> = Vec::new();
        let mut i: usize = 0;
        while i < n
            invariant
                n == variants@.len(),
                0 <= i <= n,
                names@.len() == i,
                labels@.len() == i,
                forall|k: int| 0 <= k < i ==> !variants@[k].has_payload,
                forall|k: int| 0 <= k < i ==> names@[k]@ == variants@[k].name@,
                forall|k: int| 0 <= k < i ==> labels@[k]@ == spec_label_of(variants@[k].name@, style),
            decreases n - i,
        {
            if variants[i].has_payload {
                return Err(DefinitionError::PayloadVariant);
            }
            let name = variants[i].name.clone();
            let label = match &style {
                Option::None => variants[i].name.clone(),
                Option::Some(c) => c.convert(variants[i].name.as_str()),
            };
            names.push(name);
            labels.push(label);
            i = i + 1;
        }
        let mut a: usize = 0;
        while a < n
            invariant
                n == labels@.len(),
                n == variants@.len(),
                0 <= a <= n,
                forall|k: int, l: int| 0 <= k < l < n && k < a ==> labels@[k]@ != labels@[l]@,
                forall|k: int| 0 <= k < n ==> labels@[k]@ == expected_labels(variants@, style)[k],
                forall|k: int| 0 <= k < n ==> !variants@[k].has_payload,
            decreases n - a,
        {
            let mut b: usize = a + 1;
            while b < n
                invariant
                    0 <= a < b <= n,
                    n == labels@.len(),
                    n == variants@.len(),
                    forall|l: int| a < l < b ==> labels@[a as int]@ != labels@[l]@,
                    forall|k: int| 0 <= k < n ==> labels@[k]@ == expected_labels(variants@, style)[k],
                    forall|k: int| 0 <= k < n ==> !variants@[k].has_payload,
                decreases n - b,
            {
                if labels[a] == labels[b] {
                    proof {
                        assert(expected_labels(variants@, style)[a as int] == expected_labels(
                            variants@,
                            style,
                        )[b as int]);
                    }
                    return Err(DefinitionError::LabelCollision);
                }
                b = b + 1;
            }
            a = a + 1;
        }
        let binding = LabelBinding { names, labels };
        proof {
            assert(binding.spec_names() =~= variants@.map_values(|v: VariantDef| v.name@));
            assert(binding.spec_labels() =~= expected_labels(variants@, style));
        }
        Ok(binding)
    }

    /// Bind a variant set with an optional free-form style token, as a
    /// configuration surface would hand it over: no token means the identifier
    /// text is used verbatim, an unrecognised token is a definition error.
    pub fn bind_renamed(variants: &Vec<VariantDef>, rename_all: Option<&str>) -> (r: Result<
        LabelBinding,
        DefinitionError,
    >)
        ensures
            rename_all is None ==> binds_to(variants@, Option::None, r),
            rename_all matches Some(n) ==> ((exists|c: CaseStyle| c.style_token() == n@) ==> (exists|
                c: CaseStyle,
            | c.style_token() == n@ && binds_to(variants@, Option::Some(c), r))),
            rename_all matches Some(n) ==> ((forall|c: CaseStyle| c.style_token() != n@) <==> r
                matches Err(DefinitionError::UnknownStyle)),
    {
        match rename_all {
            Option::None => Self::bind(variants, Option::None),
            Option::Some(tok) => match CaseStyle::from_name(tok) {
                Option::None => Err(DefinitionError::UnknownStyle),
                Option::Some(style) => Self::bind(variants, Option::Some(style)),
            },
        }
    }

    /// How many variants the binding covers.
    pub fn num_variants(&self) -> (n: usize)
        ensures
            n == self.spec_labels().len(),
            n == self.spec_names().len(),
    {
        proof {
            use_type_invariant(self);
        }
        self.labels.len()
    }

    /// The complete set of bound labels: one per variant, pairwise distinct.
    pub fn values(&self) -> (r: Vec<String>)
        ensures
            r@.map_values(|s: String| s@) == self.spec_labels(),
            r@.len() == self.spec_names().len(),
            forall|i: int, j: int| 0 <= i < j < r@.len() ==> r@[i]@ != r@[j]@,
    {
        proof {
            use_type_invariant(self);
        }
        let mut out: Vec<String> = Vec::new();
        let mut i: usize = 0;
        let n = self.labels.len();
        while i < n
            invariant
                n == self.labels@.len(),
                0 <= i <= n,
                out@.len() == i,
                forall|k: int| 0 <= k < i ==> out@[k]@ == self.labels@[k]@,
                forall|k: int| 0 <= k < i ==> out@[k] == self.labels@[k],
            decreases n - i,
        {
            out.push(self.labels[i].clone());
            i = i + 1;
        }
        proof {
            assert(out@.map_values(|s: String| s@) =~= self.spec_labels());
        }
        out
    }

    /// The label bound to one variant, addressed by its position in the set.
    pub fn value(&self, variant: usize) -> (r: String)
        requires
            variant < self.spec_labels().len(),
        ensures
            r@ == self.spec_labels()[variant as int],
    {
        proof {
            use_type_invariant(self);
        }
        self.labels[variant].clone()
    }

    /// The variant bound to a label.  Total only over the bound label set:
    /// callers must pre-validate membership, with `values` or `try_from_value`.
    pub fn from_value(&self, label: &str) -> (r: usize)
        requires
            exists|i: int| 0 <= i < self.spec_labels().len() && self.spec_labels()[i] == label@,
        ensures
            r < self.spec_labels().len(),
            self.spec_labels()[r as int] == label@,
    {
        proof {
            use_type_invariant(self);
        }
        match self.try_from_value(label) {
            Option::Some(i) => i,
            Option::None => unreached(),
        }
    }

    /// The variant bound to a label, or nothing when the label is unbound.
    pub fn try_from_value(&self, label: &str) -> (r: Option<usize>)
        ensures
            match r {
                Some(i) => i < self.spec_labels().len() && self.spec_labels()[i as int] == label@,
                None => forall|i: int|
                    0 <= i < self.spec_labels().len() ==> self.spec_labels()[i] != label@,
            },
    {
        proof {
            use_type_invariant(self);
        }
        let q = String::from_str(label);
        let n = self.labels.len();
        let mut i: usize = 0;
        while i < n
            invariant
                n == self.labels@.len(),
                0 <= i <= n,
                q@ == label@,
                forall|k: int| 0 <= k < i ==> self.labels@[k]@ != label@,
            decreases n - i,
        {
            if self.labels[i] == q {
                return Some(i);
            }
            i = i + 1;
        }
        None
    }

    /// Round-trip law: looking the label bound to a variant back up yields the
    /// same variant.
    pub fn round_trip(&self, variant: usize) -> (r: usize)
        requires
            variant < self.spec_labels().len(),
        ensures
            r == variant,
    {
        proof {
            use_type_invariant(self);
        }
        let label = self.value(variant);
        self.from_value(label.as_str())
    }
}

} // verus!

//! Tool descriptors, their schemas, and the checks of arguments and
//! payloads against them.

use crate::text::copy_text;
use crate::value::{fields_view, find_field, kind_of, lookup, Field, FieldModel, Value, ValueKind, ValueModel};
use vstd::prelude::*;
use vstd::string::*;

verus! {

/// One field of an input schema.
#[derive(Debug, PartialEq)]
pub struct FieldRule {
    pub name: String,
    pub kind: ValueKind,
    pub required: bool,
}

/// What a `FieldRule` is.
pub struct RuleModel {
    pub name: Seq<char>,
    pub kind: ValueKind,
    pub required: bool,
}

impl View for FieldRule {
    type V = RuleModel;

    open spec fn view(&self) -> RuleModel {
        RuleModel { name: self.name@, kind: self.kind, required: self.required }
    }
}

impl FieldRule {
    pub fn new(name: &str, kind: ValueKind, required: bool) -> (r: FieldRule)
        ensures
            r@ == (RuleModel { name: name@, kind, required }),
    {
        FieldRule { name: copy_text(name), kind, required }
    }

    /// A copy of this rule.
    pub fn duplicate(&self) -> (r: FieldRule)
        ensures
            r@ == self@,
    {
        FieldRule { name: copy_text(self.name.as_str()), kind: self.kind, required: self.required }
    }
}

/// The rules of a schema, each as its model.
pub open spec fn rules_view(rules: Seq<FieldRule>) -> Seq<RuleModel> {
    rules.map_values(|r: FieldRule| r@)
}

/// The metadata of one tool.
#[derive(Debug, PartialEq)]
pub struct ToolDescriptor {
    pub name: String,
    pub description: String,
    pub input_schema: Vec<FieldRule>,
    pub output_schema: Option<ValueKind>,
}

/// What a `ToolDescriptor` is.
pub struct DescriptorModel {
    pub name: Seq<char>,
    pub description: Seq<char>,
    pub input_schema: Seq<RuleModel>,
    pub output_schema: Option<ValueKind>,
}

impl View for ToolDescriptor {
    type V = DescriptorModel;

    open spec fn view(&self) -> DescriptorModel {
        DescriptorModel {
            name: self.name@,
            description: self.description@,
            input_schema: rules_view(self.input_schema@),
            output_schema: self.output_schema,
        }
    }
}

impl ToolDescriptor {
    pub fn new(
        name: &str,
        description: &str,
        input_schema: Vec<FieldRule>,
        output_schema: Option<ValueKind>,
    ) -> (r: ToolDescriptor)
        ensures
            r@ == (DescriptorModel {
                name: name@,
                description: description@,
                input_schema: rules_view(input_schema@),
                output_schema,
            }),
    {
        ToolDescriptor {
            name: copy_text(name),
            description: copy_text(description),
            input_schema,
            output_schema,
        }
    }

    /// A copy of this descriptor.
    pub fn duplicate(&self) -> (r: ToolDescriptor)
        ensures
            r@ == self@,
    {
        let n: usize = self.input_schema.len();
        let mut rules: Vec<FieldRule> = Vec::new();
        let mut i: usize = 0;
        while i < n
            invariant
                n == self.input_schema@.len(),
                i <= n,
                rules@.len() == i,
                forall|j: int| 0 <= j < i ==> (#[trigger] rules@[j])@ == self.input_schema@[j]@,
            decreases n - i,
        {
            rules.push(self.input_schema[i].duplicate());
            i = i + 1;
        }
        assert(rules_view(rules@) =~= rules_view(self.input_schema@));
        ToolDescriptor {
            name: copy_text(self.name.as_str()),
            description: copy_text(self.description.as_str()),
            input_schema: rules,
            output_schema: self.output_schema,
        }
    }
}

/// Why a field of the arguments breaks its rule.
#[derive(Clone, Copy, Debug, PartialEq, Eq, Structural)]
pub enum Reason {
    /// The schema requires the field and the arguments lack it.
    Missing,
    /// The field holds a value of another kind than the schema names.
    WrongKind,
}

impl Reason {
    /// The sentence that states the reason.
    pub open spec fn sentence(self) -> Seq<char> {
        match self {
            Reason::Missing => "required field is missing"@,
            Reason::WrongKind => "field holds a value of the wrong kind"@,
        }
    }

    /// The sentence that states the reason.
    pub fn text(&self) -> (r: &'static str)
        ensures
            r@ == self.sentence(),
    {
        match self {
            Reason::Missing => "required field is missing",
            Reason::WrongKind => "field holds a value of the wrong kind",
        }
    }
}

/// The first rule that the arguments break, and why.
#[derive(Debug, PartialEq)]
pub struct Violation {
    pub field: String,
    pub reason: Reason,
}

/// What a `Violation` is.
pub struct ViolationModel {
    pub field: Seq<char>,
    pub reason: Reason,
}

impl View for Violation {
    type V = ViolationModel;

    open spec fn view(&self) -> ViolationModel {
        ViolationModel { field: self.field@, reason: self.reason }
    }
}

/// Why the arguments break `rule`, if they do. A required field must be
/// there; a field that is there must hold the kind that the rule names.
/// Where a name occurs twice in the arguments, the first occurrence counts.
pub open spec fn rule_fault(rule: RuleModel, args: Seq<FieldModel>) -> Option<Reason> {
    match lookup(args, rule.name) {
        None => if rule.required {
            Some(Reason::Missing)
        } else {
            None
        },
        Some(v) => if kind_of(v) == rule.kind {
            None
        } else {
            Some(Reason::WrongKind)
        },
    }
}

/// Whether the arguments meet every rule of the schema.
pub open spec fn conforms(schema: Seq<RuleModel>, args: Seq<FieldModel>) -> bool {
    forall|i: int| 0 <= i < schema.len() ==> rule_fault(#[trigger] schema[i], args) is None
}

/// The first broken rule from `from` on, in the order of the schema.
pub open spec fn first_fault_from(schema: Seq<RuleModel>, args: Seq<FieldModel>, from: int) -> Option<
    ViolationModel,
>
    decreases schema.len() - from,
{
    if from < 0 || from >= schema.len() {
        None
    } else {
        match rule_fault(schema[from], args) {
            Some(reason) => Some(ViolationModel { field: schema[from].name, reason }),
            None => first_fault_from(schema, args, from + 1),
        }
    }
}

/// The first broken rule, in the order of the schema.
pub open spec fn first_fault(schema: Seq<RuleModel>, args: Seq<FieldModel>) -> Option<ViolationModel> {
    first_fault_from(schema, args, 0)
}

/// No rule from `from` on is broken exactly when `first_fault_from` finds
/// none; what it finds is broken, and every rule before it is met.
pub proof fn lemma_first_fault_from(schema: Seq<RuleModel>, args: Seq<FieldModel>, from: int)
    requires
        0 <= from <= schema.len(),
    ensures
        match first_fault_from(schema, args, from) {
            None => forall|i: int|
                from <= i < schema.len() ==> rule_fault(#[trigger] schema[i], args) is None,
            Some(v) => exists|i: int|
                from <= i < schema.len() && rule_fault(#[trigger] schema[i], args) == Some(v.reason)
                    && schema[i].name == v.field && forall|j: int|
                    from <= j < i ==> rule_fault(#[trigger] schema[j], args) is None,
        },
    decreases schema.len() - from,
{
    if from < schema.len() {
        match rule_fault(schema[from], args) {
            Some(reason) => {
                assert(rule_fault(schema[from], args) == Some(reason));
            },
            None => {
                lemma_first_fault_from(schema, args, from + 1);
                match first_fault_from(schema, args, from + 1) {
                    None => {
                        assert forall|i: int| from <= i < schema.len() implies rule_fault(
                            #[trigger] schema[i],
                            args,
                        ) is None by {
                            if i == from {
                            }
                        }
                    },
                    Some(v) => {
                        let i = choose|i: int|
                            from + 1 <= i < schema.len() && rule_fault(#[trigger] schema[i], args)
                                == Some(v.reason) && schema[i].name == v.field && forall|j: int|
                                from + 1 <= j < i ==> rule_fault(#[trigger] schema[j], args) is None;
                        assert forall|j: int| from <= j < i implies rule_fault(
                            #[trigger] schema[j],
                            args,
                        ) is None by {
                            if j == from {
                            }
                        }
                    },
                }
            },
        }
    }
}

/// The arguments conform to a schema exactly when no rule is broken.
pub proof fn lemma_conforms_iff_no_fault(schema: Seq<RuleModel>, args: Seq<FieldModel>)
    ensures
        conforms(schema, args) <==> first_fault(schema, args) is None,
{
    lemma_first_fault_from(schema, args, 0);
}

/// Checks one rule against the arguments.
pub fn check_rule(rule: &FieldRule, args: &Vec<Field>) -> (r: Option<Reason>)
    ensures
        r == rule_fault(rule@, fields_view(args@)),
{
    match find_field(args, rule.name.as_str()) {
        None => if rule.required {
            Some(Reason::Missing)
        } else {
            None
        },
        Some(i) => {
            if args[i].value.kind() == rule.kind {
                None
            } else {
                Some(Reason::WrongKind)
            }
        },
    }
}

/// Checks the arguments against an input schema, rule by rule in the order
/// of the schema, and names the first rule that is broken.
pub fn validate_arguments(schema: &Vec<FieldRule>, args: &Vec<Field>) -> (r: Result<(), Violation>)
    ensures
        r is Ok <==> conforms(rules_view(schema@), fields_view(args@)),
        match r {
            Ok(_) => first_fault(rules_view(schema@), fields_view(args@)) is None,
            Err(v) => first_fault(rules_view(schema@), fields_view(args@)) == Some(v@),
        },
{
    let n: usize = schema.len();
    let ghost rules = rules_view(schema@);
    let ghost fields = fields_view(args@);
    proof {
        lemma_conforms_iff_no_fault(rules, fields);
    }
    let mut i: usize = 0;
    while i < n
        invariant
            n == schema@.len(),
            rules == rules_view(schema@),
            fields == fields_view(args@),
            i <= n,
            first_fault(rules, fields) == first_fault_from(rules, fields, i as int),
        decreases n - i,
    {
        match check_rule(&schema[i], args) {
            Some(reason) => {
                return Err(Violation { field: copy_text(schema[i].name.as_str()), reason });
            },
            None => {},
        }
        i = i + 1;
    }
    Ok(())
}

/// Whether a payload has the shape that the output schema names; any
/// payload has where there is no output schema.
pub open spec fn payload_fits(output_schema: Option<ValueKind>, payload: ValueModel) -> bool {
    match output_schema {
        None => true,
        Some(kind) => kind_of(payload) == kind,
    }
}

/// Checks a payload against an output schema.
pub fn validate_payload(output_schema: &Option<ValueKind>, payload: &Value) -> (r: bool)
    ensures
        r == payload_fits(*output_schema, payload@),
{
    match output_schema {
        None => true,
        Some(kind) => payload.kind() == *kind,
    }
}

} // verus!

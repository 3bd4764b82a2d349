//! Semantic validation of HubGS files: field definitions, orphaned
//! instances, unknown types, assignments to fields and roles, value types,
//! references, multiplicities and missing required roles.
use vstd::prelude::*;

use crate::model::{
    lemma_values_view_push, strings_view, value_view, values_view, AssignmentView, EnumView, ErrorView,
    FieldView, FileView, GlobalField, GlobalFieldView, HubAssignment, HubEnum, HubInstance, HubRoleDef,
    HubType, HubValue, InstanceView, ParseView, RoleView, TypeView, ValidationError, ValueView, Workspace,
    WorkspaceFile,
};
use crate::multiplicity::{spec_min_required, spec_parse, spec_validate, Multiplicity};
use crate::polymorphic::{
    chain_in, chain_roles, chain_fields, contains_name, find_named, first_of_each, has_key,
    hub_type_all_fields, hub_type_all_roles, hub_type_allows, spec_allows, Named,
};
use crate::position::LspRange;
use crate::resolution::{
    all_enums, all_enums_of, all_global_fields, all_global_fields_of, all_types_of, resolve_reference,
    resolve_type, resolve_type_at, resolve_type_at_path, spec_resolve_reference, spec_resolve_type,
};
use crate::text::{
    append_decimal, owned, decimal, ends_with, spec_decimal, spec_ends_with, spec_starts_with, starts_with, str_eq,
};

verus! {

// ---------- value types ----------

/// The lower-case form of a string, as `str::to_lowercase` gives it.
pub uninterp spec fn lowercase_of(s: Seq<char>) -> Seq<char>;

/// The lower-case form of an ASCII character: `A` to `Z` become `a` to
/// `z`, the others stay.
pub open spec fn ascii_lower(c: char) -> char {
    if 'A' <= c && c <= 'Z' {
        ((c as u32) + 32) as char
    } else {
        c
    }
}

/// The lower-case form of `s` (`str::to_lowercase`, Unicode case
/// mapping), named `lowercase_of`; for an ASCII string it is stated: each
/// upper-case letter made lower-case. Unicode's tables for the other
/// characters are not restated.
#[verifier::external_body]
pub(crate) fn to_lowercase(s: &str) -> (r: String)
    ensures
        r@ == lowercase_of(s@),
        (forall|i: int| 0 <= i < s@.len() ==> (#[trigger] s@[i] as u32) < 128) ==> r@ == s@.map_values(
            |c: char| ascii_lower(c),
        ),
{
    s.to_lowercase()
}

/// An image file name: it ends with one of the known image suffixes.
pub open spec fn image_suffix(lower: Seq<char>) -> bool {
    ||| spec_ends_with(lower, ".png"@)
    ||| spec_ends_with(lower, ".jpg"@)
    ||| spec_ends_with(lower, ".jpeg"@)
    ||| spec_ends_with(lower, ".gif"@)
    ||| spec_ends_with(lower, ".svg"@)
    ||| spec_ends_with(lower, ".webp"@)
}

/// Whether a lower-cased file name ends with an image suffix.
pub fn is_image_name(lower: &str) -> (b: bool)
    ensures
        b == image_suffix(lower@),
{
    ends_with(lower, ".png") || ends_with(lower, ".jpg") || ends_with(lower, ".jpeg") || ends_with(
        lower,
        ".gif",
    ) || ends_with(lower, ".svg") || ends_with(lower, ".webp")
}

/// A color written as text: hex, `rgb(..)` or `hsl(..)`.
pub open spec fn color_text(s: Seq<char>) -> bool {
    spec_starts_with(s, "#"@) || spec_starts_with(s, "rgb"@) || spec_starts_with(s, "hsl"@)
}

/// Every value of `vs` is text.
pub open spec fn all_text(vs: Seq<ValueView>) -> bool {
    forall|i: int| 0 <= i < vs.len() ==> #[trigger] vs[i] is Text
}

/// Every value of `vs` is a number.
pub open spec fn all_numbers(vs: Seq<ValueView>) -> bool {
    forall|i: int| 0 <= i < vs.len() ==> #[trigger] vs[i] is Number
}

/// The first enum of `es` named `name`.
pub open spec fn find_enum(es: Seq<EnumView>, name: Seq<char>) -> Option<EnumView>
    decreases es.len(),
{
    if es.len() == 0 {
        None
    } else if es[0].name == name {
        Some(es[0])
    } else {
        find_enum(es.drop_first(), name)
    }
}

/// Whether `v` is a valid value for a field of type `ty`. `String` types
/// and types that are neither built in nor an enum accept anything; an
/// enum accepts one of its variants written as an identifier.
pub open spec fn value_type_ok(ws: Seq<FileView>, v: ValueView, ty: Seq<char>) -> bool {
    if ty == "String"@ || ty == "Array<String>"@ {
        true
    } else if ty == "Text"@ {
        v is Text
    } else if ty == "Number"@ {
        v is Number
    } else if ty == "Boolean"@ {
        v is Boolean
    } else if ty == "Array<Text>"@ {
        v matches ValueView::Array(vs) && all_text(vs)
    } else if ty == "Array<Number>"@ {
        v matches ValueView::Array(vs) && all_numbers(vs)
    } else if ty == "Color"@ {
        match v {
            ValueView::Number(_) => true,
            ValueView::Text(s) => color_text(s),
            _ => false,
        }
    } else if ty == "Image"@ {
        v matches ValueView::Text(s) && image_suffix(lowercase_of(s))
    } else {
        match find_enum(all_enums_of(ws), ty) {
            Some(e) => v matches ValueView::Identifier(s) && e.variants.contains(s),
            None => true,
        }
    }
}

fn all_text_values(vals: &Vec<HubValue>) -> (b: bool)
    ensures
        b == all_text(values_view(vals@)),
{
    proof {
        crate::model::lemma_values_view_index(vals@);
    }
    let mut i: usize = 0;
    while i < vals.len()
        invariant
            i <= vals.len(),
            values_view(vals@).len() == vals@.len(),
            forall|j: int| 0 <= j < vals@.len() ==> #[trigger] values_view(vals@)[j] == value_view(vals@[j]),
            forall|j: int| 0 <= j < i ==> #[trigger] values_view(vals@)[j] is Text,
        decreases vals.len() - i,
    {
        match &vals[i] {
            HubValue::Text(_) => {},
            _ => {
                assert(!(values_view(vals@)[i as int] is Text));
                return false;
            },
        }
        i = i + 1;
    }
    true
}

fn all_number_values(vals: &Vec<HubValue>) -> (b: bool)
    ensures
        b == all_numbers(values_view(vals@)),
{
    proof {
        crate::model::lemma_values_view_index(vals@);
    }
    let mut i: usize = 0;
    while i < vals.len()
        invariant
            i <= vals.len(),
            values_view(vals@).len() == vals@.len(),
            forall|j: int| 0 <= j < vals@.len() ==> #[trigger] values_view(vals@)[j] == value_view(vals@[j]),
            forall|j: int| 0 <= j < i ==> #[trigger] values_view(vals@)[j] is Number,
        decreases vals.len() - i,
    {
        match &vals[i] {
            HubValue::Number(_) => {},
            _ => {
                assert(!(values_view(vals@)[i as int] is Number));
                return false;
            },
        }
        i = i + 1;
    }
    true
}

fn find_enum_in(es: &Vec<HubEnum>, name: &str) -> (r: Option<usize>)
    ensures
        match r {
            Some(i) => i < es.len() && find_enum(es@.map_values(|e: HubEnum| e@), name@) == Some(es@[i as int]@),
            None => find_enum(es@.map_values(|e: HubEnum| e@), name@) is None,
        },
{
    let ghost v = es@.map_values(|e: HubEnum| e@);
    let mut i: usize = 0;
    assert(v.skip(0) =~= v);
    while i < es.len()
        invariant
            i <= es.len(),
            v == es@.map_values(|e: HubEnum| e@),
            find_enum(v, name@) == find_enum(v.skip(i as int), name@),
        decreases es.len() - i,
    {
        assert(v.skip(i as int).drop_first() =~= v.skip(i + 1));
        assert(v.skip(i as int)[0] == es@[i as int]@);
        if str_eq(es[i].name.as_str(), name) {
            return Some(i);
        }
        i = i + 1;
    }
    None
}

/// An `Image` field takes exactly the text values whose lower-cased form
/// ends with `.png`, `.jpg`, `.jpeg`, `.gif`, `.svg` or `.webp`.
pub proof fn law_image_values(ws: Seq<FileView>, v: ValueView)
    ensures
        value_type_ok(ws, v, "Image"@) <==> (v matches ValueView::Text(s) && {
            let lower = lowercase_of(s);
            ||| spec_ends_with(lower, ".png"@)
            ||| spec_ends_with(lower, ".jpg"@)
            ||| spec_ends_with(lower, ".jpeg"@)
            ||| spec_ends_with(lower, ".gif"@)
            ||| spec_ends_with(lower, ".svg"@)
            ||| spec_ends_with(lower, ".webp"@)
        }),
{
    reveal_strlit("Image");
    reveal_strlit("String");
    reveal_strlit("Array<String>");
    reveal_strlit("Text");
    reveal_strlit("Number");
    reveal_strlit("Boolean");
    reveal_strlit("Array<Text>");
    reveal_strlit("Array<Number>");
    reveal_strlit("Color");
    assert("Image"@[0] != "String"@[0]);
    assert("Image"@[0] != "Array<String>"@[0]);
    assert("Image"@[0] != "Text"@[0]);
    assert("Image"@[0] != "Number"@[0]);
    assert("Image"@[0] != "Boolean"@[0]);
    assert("Image"@[0] != "Array<Text>"@[0]);
    assert("Image"@[0] != "Array<Number>"@[0]);
    assert("Image"@[0] != "Color"@[0]);
}

/// Whether `value` is a valid value for a field of type `field_type`.
pub fn validate_value_type(ws: &Workspace, value: &HubValue, field_type: &str) -> (b: bool)
    ensures
        b == value_type_ok(ws@, value@, field_type@),
{
    if str_eq(field_type, "String") || str_eq(field_type, "Array<String>") {
        true
    } else if str_eq(field_type, "Text") {
        matches!(value, HubValue::Text(_))
    } else if str_eq(field_type, "Number") {
        matches!(value, HubValue::Number(_))
    } else if str_eq(field_type, "Boolean") {
        matches!(value, HubValue::Boolean(_))
    } else if str_eq(field_type, "Array<Text>") {
        match value {
            HubValue::Array(vals) => all_text_values(vals),
            _ => false,
        }
    } else if str_eq(field_type, "Array<Number>") {
        match value {
            HubValue::Array(vals) => all_number_values(vals),
            _ => false,
        }
    } else if str_eq(field_type, "Color") {
        match value {
            HubValue::Number(_) => true,
            HubValue::Text(s) => starts_with(s.as_str(), "#") || starts_with(s.as_str(), "rgb") || starts_with(
                s.as_str(),
                "hsl",
            ),
            _ => false,
        }
    } else if str_eq(field_type, "Image") {
        match value {
            HubValue::Text(s) => {
                let lower = to_lowercase(s.as_str());
                is_image_name(lower.as_str())
            },
            _ => false,
        }
    } else {
        let enums = all_enums(ws);
        match find_enum_in(&enums, field_type) {
            Some(i) => match value {
                HubValue::Identifier(s) => contains_name(enums[i].variants.as_slice(), s),
                _ => false,
            },
            None => true,
        }
    }
}

// ---------- references held by a value ----------

/// The instance names a value refers to: an identifier names one, an
/// array the names of its elements in order.
pub open spec fn value_refs(v: ValueView) -> Seq<Seq<char>>
    decreases v,
{
    match v {
        ValueView::Identifier(s) => seq![s],
        ValueView::Array(vs) => values_refs(vs),
        _ => Seq::empty(),
    }
}

/// The instance names a sequence of values refers to.
pub open spec fn values_refs(vs: Seq<ValueView>) -> Seq<Seq<char>>
    decreases vs,
{
    if vs.len() == 0 {
        Seq::empty()
    } else {
        value_refs(vs[0]) + values_refs(vs.drop_first())
    }
}

proof fn lemma_values_refs_push(vs: Seq<ValueView>, v: ValueView)
    ensures
        values_refs(vs.push(v)) == values_refs(vs) + value_refs(v),
    decreases vs.len(),
{
    if vs.len() == 0 {
        assert(vs.push(v).drop_first() =~= Seq::<ValueView>::empty());
        assert(vs.push(v)[0] == v);
        assert(values_refs(Seq::<ValueView>::empty()) =~= Seq::<Seq<char>>::empty());
        assert(values_refs(vs.push(v)) =~= values_refs(vs) + value_refs(v));
    } else {
        lemma_values_refs_push(vs.drop_first(), v);
        assert(vs.push(v).drop_first() =~= vs.drop_first().push(v));
        assert(vs.push(v)[0] == vs[0]);
        assert(values_refs(vs.push(v)) =~= values_refs(vs) + value_refs(v));
    }
}

/// The instance names `value` refers to, in order.
pub fn refs_of_value(value: &HubValue) -> (r: Vec<String>)
    ensures
        strings_view(r@) == value_refs(value@),
    decreases value,
{
    match value {
        HubValue::Identifier(s) => {
            let mut r: Vec<String> = Vec::new();
            r.push(s.clone());
            assert(strings_view(r@) =~= seq![s@]);
            r
        },
        HubValue::Array(vals) => refs_of_values(vals),
        _ => {
            let r: Vec<String> = Vec::new();
            assert(strings_view(r@) =~= Seq::<Seq<char>>::empty());
            r
        },
    }
}


/// The instance names a vector of values refers to, in order.
pub fn refs_of_values(vals: &Vec<HubValue>) -> (r: Vec<String>)
    ensures
        strings_view(r@) == values_refs(values_view(vals@)),
    decreases vals,
{
    let mut r: Vec<String> = Vec::new();
    let mut i: usize = 0;
    assert(strings_view(r@) =~= values_refs(values_view(vals@.take(0))));
    while i < vals.len()
        invariant
            i <= vals.len(),
            strings_view(r@) == values_refs(values_view(vals@.take(i as int))),
        decreases vals.len() - i,
    {
        assert(decreases_to!(vals => vals@[i as int]));
        let mut sub = refs_of_value(&vals[i]);
        proof {
            lemma_values_view_push(vals@.take(i as int), vals@[i as int]);
            assert(vals@.take(i + 1) =~= vals@.take(i as int).push(vals@[i as int]));
            lemma_values_refs_push(values_view(vals@.take(i as int)), value_view(vals@[i as int]));
        }
        let ghost r0 = r@;
        let ghost s0 = sub@;
        r.append(&mut sub);
        assert(strings_view(r@) =~= strings_view(r0) + strings_view(s0));
        i = i + 1;
    }
    assert(vals@.take(vals.len() as int) =~= vals@);
    r
}

// ---------- diagnostics ----------

/// The views of a sequence of diagnostics.
pub open spec fn errors_view(v: Seq<ValidationError>) -> Seq<ErrorView> {
    v.map_values(|e: ValidationError| e@)
}

/// A diagnostic.
pub open spec fn diag(range: LspRange, message: Seq<char>) -> ErrorView {
    ErrorView { range, message }
}

fn push_error(errors: &mut Vec<ValidationError>, range: LspRange, message: String)
    ensures
        errors_view(final(errors)@) == errors_view(old(errors)@).push(diag(range, message@)),
{
    let ghost e0 = errors@;
    let ghost m = message@;
    errors.push(ValidationError { range, message });
    assert(errors_view(errors@) =~= errors_view(e0).push(diag(range, m)));
}

/// `a`, `b` and `c` one after another.
fn concat3(a: &str, b: &str, c: &str) -> (r: String)
    ensures
        r@ == a@ + b@ + c@,
{
    let mut r = owned(a);
    r.append(b);
    r.append(c);
    r
}

/// `a`, `b`, `c`, `d` and `e` one after another.
fn concat5(a: &str, b: &str, c: &str, d: &str, e: &str) -> (r: String)
    ensures
        r@ == a@ + b@ + c@ + d@ + e@,
{
    let mut r = concat3(a, b, c);
    r.append(d);
    r.append(e);
    r
}

/// Message for an instance in a file without definitions or imports.
pub open spec fn orphan_message(i: InstanceView) -> Seq<char> {
    "Instance '"@ + i.name + "' uses type '"@ + i.instance_type + "' but no definitions or imports are present"@
}

/// Message for a hub field missing from every FIELDS block.
pub open spec fn undeclared_field_message(field: Seq<char>, hub: Seq<char>) -> Seq<char> {
    "Field '"@ + field + "' used in Hub '"@ + hub + "' must be defined in a FIELDS block"@
}

/// Message for an instance of an unknown type.
pub open spec fn unknown_type_message(ty: Seq<char>) -> Seq<char> {
    "Unknown Hub type '"@ + ty + "'"@
}

/// Message for an assignment to a name the type has no field or role for.
pub open spec fn unknown_member_message(name: Seq<char>, ty: Seq<char>) -> Seq<char> {
    "Unknown field or role '"@ + name + "' for type '"@ + ty + "'"@
}

/// Message for a field value of the wrong type.
pub open spec fn field_mismatch_message(name: Seq<char>, expected: Seq<char>) -> Seq<char> {
    "Type mismatch for field '"@ + name + "': expected '"@ + expected + "'"@
}

/// Message for a role assigned something other than an array.
pub open spec fn not_array_message(role: Seq<char>) -> Seq<char> {
    "Role assignment for '"@ + role + "' must be an array of references wrapped in '[...]'"@
}

/// Message for a reference to an instance whose type the role does not allow.
pub open spec fn disallowed_message(role: Seq<char>, ty: Seq<char>) -> Seq<char> {
    "Type mismatch: Role '"@ + role + "' does not allow type '"@ + ty + "'"@
}

/// Message for a reference to no instance.
pub open spec fn missing_reference_message(name: Seq<char>) -> Seq<char> {
    "Hub reference '"@ + name + "' not found"@
}

/// Message for a role given too few or too many references.
pub open spec fn multiplicity_message(role: Seq<char>, mult: Seq<char>, count: nat) -> Seq<char> {
    "Multiplicity violation for role '"@ + role + "': expected "@ + mult + ", found "@ + spec_decimal(count)
}

/// Message for a required role left unassigned.
pub open spec fn missing_role_message(role: Seq<char>, ty: Seq<char>) -> Seq<char> {
    "Missing required role '"@ + role + "' for type '"@ + ty + "'"@
}

// ---------- role assignments ----------

/// What a reference `name` in an assignment to role `rd` is found
/// wanting: no instance of that name, or an instance whose type (resolved
/// from the instance's own file) the role does not allow.
pub open spec fn one_ref_errors(ws: Seq<FileView>, name: Seq<char>, rd: RoleView, range: LspRange) -> Seq<
    ErrorView,
> {
    match spec_resolve_reference(ws, name) {
        Some(inst) => match resolve_type_at(ws, inst.file, inst.instance_type) {
            Some(t) => if spec_allows(all_types_of(ws), t, rd.allowed_types) {
                Seq::empty()
            } else {
                seq![diag(range, disallowed_message(rd.name, inst.instance_type))]
            },
            None => Seq::empty(),
        },
        None => seq![diag(range, missing_reference_message(name))],
    }
}

/// The diagnostics for the references `refs`, in order.
pub open spec fn ref_errors(ws: Seq<FileView>, refs: Seq<Seq<char>>, rd: RoleView, range: LspRange) -> Seq<
    ErrorView,
>
    decreases refs.len(),
{
    if refs.len() == 0 {
        Seq::empty()
    } else {
        ref_errors(ws, refs.drop_last(), rd, range) + one_ref_errors(ws, refs.last(), rd, range)
    }
}

/// The diagnostics for assigning `v` to role `rd`: not an array, then each
/// reference, then the multiplicity.
pub open spec fn role_assignment_errors(ws: Seq<FileView>, v: ValueView, rd: RoleView, range: LspRange) -> Seq<
    ErrorView,
> {
    let refs = value_refs(v);
    (if v is Array {
        Seq::empty()
    } else {
        seq![diag(range, not_array_message(rd.name))]
    }) + ref_errors(ws, refs, rd, range) + if spec_validate(spec_parse(rd.multiplicity), refs.len() as u32) {
        Seq::empty()
    } else {
        seq![diag(range, multiplicity_message(rd.name, rd.multiplicity, refs.len()))]
    }
}

fn check_reference(
    ws: &Workspace,
    name: &String,
    role_def: &HubRoleDef,
    range: LspRange,
    errors: &mut Vec<ValidationError>,
)
    ensures
        errors_view(final(errors)@) == errors_view(old(errors)@) + one_ref_errors(ws@, name@, role_def@, range),
{
    let ghost e0 = errors_view(errors@);
    match resolve_reference(ws, name) {
        Some(inst) => match resolve_type_at_path(ws, &inst.file, &inst.instance_type) {
            Some(t) => {
                if !hub_type_allows(ws, &t, role_def.allowed_types.as_slice()) {
                    let m = concat5(
                        "Type mismatch: Role '",
                        role_def.name.as_str(),
                        "' does not allow type '",
                        inst.instance_type.as_str(),
                        "'",
                    );
                    push_error(errors, range, m);
                } else {
                    assert(e0 + Seq::<ErrorView>::empty() =~= e0);
                }
            },
            None => {
                assert(e0 + Seq::<ErrorView>::empty() =~= e0);
            },
        },
        None => {
            let m = concat3("Hub reference '", name.as_str(), "' not found");
            push_error(errors, range, m);
        },
    }
}

/// Checks an assignment of `value` to the role `role_def`: it must be an
/// array, each reference must name an instance of an allowed type, and the
/// number of references must fit the role's multiplicity.
pub fn validate_role_assignment(
    ws: &Workspace,
    value: &HubValue,
    role_def: &HubRoleDef,
    assignment_range: LspRange,
    errors: &mut Vec<ValidationError>,
)
    ensures
        errors_view(final(errors)@) == errors_view(old(errors)@) + role_assignment_errors(
            ws@,
            value@,
            role_def@,
            assignment_range,
        ),
{
    let ghost e0 = errors_view(errors@);
    let ghost rd = role_def@;
    let ghost head: Seq<ErrorView> = if value@ is Array {
        Seq::empty()
    } else {
        seq![diag(assignment_range, not_array_message(rd.name))]
    };
    if !matches!(value, HubValue::Array(_)) {
        let m = concat3(
            "Role assignment for '",
            role_def.name.as_str(),
            "' must be an array of references wrapped in '[...]'",
        );
        push_error(errors, assignment_range, m);
    }
    assert(errors_view(errors@) =~= e0 + head);
    let refs = refs_of_value(value);
    let ghost rv = strings_view(refs@);
    let mut i: usize = 0;
    assert(rv.take(0) =~= Seq::<Seq<char>>::empty());
    assert(errors_view(errors@) =~= e0 + head + ref_errors(ws@, rv.take(0), rd, assignment_range));
    while i < refs.len()
        invariant
            i <= refs.len(),
            rv == strings_view(refs@),
            rd == role_def@,
            errors_view(errors@) == e0 + head + ref_errors(ws@, rv.take(i as int), rd, assignment_range),
        decreases refs.len() - i,
    {
        check_reference(ws, &refs[i], role_def, assignment_range, errors);
        proof {
            assert(rv.take(i + 1).drop_last() =~= rv.take(i as int));
            assert(rv.take(i + 1).last() == refs@[i as int]@);
            assert(e0 + head + ref_errors(ws@, rv.take(i as int), rd, assignment_range) + one_ref_errors(
                ws@,
                refs@[i as int]@,
                rd,
                assignment_range,
            ) =~= e0 + head + ref_errors(ws@, rv.take(i + 1), rd, assignment_range));
        }
        i = i + 1;
    }
    assert(rv.take(refs.len() as int) =~= rv);
    let ghost mid = errors_view(errors@);
    let mult = Multiplicity::parse(role_def.multiplicity.as_str());
    if !mult.validate(refs.len()) {
        let mut m = concat3("Multiplicity violation for role '", role_def.name.as_str(), "': expected ");
        m.append(role_def.multiplicity.as_str());
        m.append(", found ");
        append_decimal(&mut m, refs.len() as u64);
        push_error(errors, assignment_range, m);
        assert(errors_view(errors@) =~= e0 + role_assignment_errors(ws@, value@, role_def@, assignment_range));
    } else {
        assert(errors_view(errors@) =~= e0 + role_assignment_errors(ws@, value@, role_def@, assignment_range));
    }
}

// ---------- instances ----------

/// The first field declaration of `g` named `name`.
pub open spec fn find_global(g: Seq<GlobalFieldView>, name: Seq<char>) -> Option<GlobalFieldView>
    decreases g.len(),
{
    if g.len() == 0 {
        None
    } else if g[0].name == name {
        Some(g[0])
    } else {
        find_global(g.drop_first(), name)
    }
}

/// The diagnostics for one assignment `a` of instance `inst` of type `t`:
/// a name that is neither an inherited field nor role; a role checked as a
/// role assignment; a field whose declared type the value does not fit.
pub open spec fn one_assignment_errors(
    ws: Seq<FileView>,
    inst: InstanceView,
    t: TypeView,
    g: Seq<GlobalFieldView>,
    a: AssignmentView,
) -> Seq<ErrorView> {
    let fields = first_of_each(chain_fields(chain_in(ws, t)));
    let roles = first_of_each(chain_roles(chain_in(ws, t)));
    let is_field = has_key(fields, a.name);
    match find_named(roles, a.name) {
        Some(rd) => role_assignment_errors(ws, a.value, rd, a.range),
        None => if !is_field {
            seq![diag(a.range, unknown_member_message(a.name, inst.instance_type))]
        } else {
            match find_global(g, a.name) {
                Some(gf) => if value_type_ok(ws, a.value, gf.field_type) {
                    Seq::empty()
                } else {
                    seq![diag(a.range, field_mismatch_message(a.name, gf.field_type))]
                },
                None => Seq::empty(),
            }
        },
    }
}

/// The diagnostics for the assignments `asgs`, in order.
pub open spec fn assignment_errors(
    ws: Seq<FileView>,
    inst: InstanceView,
    t: TypeView,
    g: Seq<GlobalFieldView>,
    asgs: Seq<AssignmentView>,
) -> Seq<ErrorView>
    decreases asgs.len(),
{
    if asgs.len() == 0 {
        Seq::empty()
    } else {
        assignment_errors(ws, inst, t, g, asgs.drop_last()) + one_assignment_errors(ws, inst, t, g, asgs.last())
    }
}

fn find_role_index(v: &Vec<HubRoleDef>, name: &String) -> (r: Option<usize>)
    ensures
        match r {
            Some(i) => i < v.len() && find_named(v@.map_values(|x: HubRoleDef| x@), name@) == Some(v@[i as int]@),
            None => find_named(v@.map_values(|x: HubRoleDef| x@), name@) is None,
        },
{
    let ghost m = v@.map_values(|x: HubRoleDef| x@);
    let mut i: usize = 0;
    assert(m.take(0) =~= Seq::<RoleView>::empty());
    while i < v.len()
        invariant
            i <= v.len(),
            m == v@.map_values(|x: HubRoleDef| x@),
            find_named(m.take(i as int), name@) is None,
        decreases v.len() - i,
    {
        assert(m.take(i + 1).drop_last() =~= m.take(i as int));
        assert(m.take(i + 1).last() == v@[i as int]@);
        if v[i].name == *name {
            proof {
                crate::polymorphic::lemma_find_named_append(m.take(i + 1), m.skip(i + 1), name@);
                assert(m.take(i + 1) + m.skip(i + 1) =~= m);
            }
            return Some(i);
        }
        i = i + 1;
    }
    assert(m.take(v.len() as int) =~= m);
    None
}

fn find_global_index(g: &Vec<GlobalField>, name: &String) -> (r: Option<usize>)
    ensures
        match r {
            Some(i) => i < g.len() && find_global(g@.map_values(|x: GlobalField| x@), name@) == Some(
                g@[i as int]@,
            ),
            None => find_global(g@.map_values(|x: GlobalField| x@), name@) is None,
        },
{
    let ghost v = g@.map_values(|x: GlobalField| x@);
    let mut i: usize = 0;
    assert(v.skip(0) =~= v);
    while i < g.len()
        invariant
            i <= g.len(),
            v == g@.map_values(|x: GlobalField| x@),
            find_global(v, name@) == find_global(v.skip(i as int), name@),
        decreases g.len() - i,
    {
        assert(v.skip(i as int).drop_first() =~= v.skip(i + 1));
        assert(v.skip(i as int)[0] == g@[i as int]@);
        if g[i].name == *name {
            return Some(i);
        }
        i = i + 1;
    }
    None
}

/// Checks each assignment of `instance` against `hub_type` (with what it
/// inherits) and the field declarations `global_fields`.
pub fn validate_instance_assignments(
    ws: &Workspace,
    instance: &HubInstance,
    hub_type: &HubType,
    global_fields: &Vec<GlobalField>,
    errors: &mut Vec<ValidationError>,
)
    ensures
        errors_view(final(errors)@) == errors_view(old(errors)@) + assignment_errors(
            ws@,
            instance@,
            hub_type@,
            global_fields@.map_values(|x: GlobalField| x@),
            instance@.assignments,
        ),
{
    let ghost e0 = errors_view(errors@);
    let ghost g = global_fields@.map_values(|x: GlobalField| x@);
    let ghost asgs = instance@.assignments;
    let all_fields = hub_type_all_fields(ws, hub_type);
    let all_roles = hub_type_all_roles(ws, hub_type);
    let mut i: usize = 0;
    assert(asgs.take(0) =~= Seq::<AssignmentView>::empty());
    assert(errors_view(errors@) =~= e0 + assignment_errors(ws@, instance@, hub_type@, g, asgs.take(0)));
    while i < instance.assignments.len()
        invariant
            i <= instance.assignments.len(),
            g == global_fields@.map_values(|x: GlobalField| x@),
            asgs == instance@.assignments,
            all_fields@.map_values(|f: crate::model::HubFieldDef| f@) == first_of_each(
                chain_fields(chain_in(ws@, hub_type@)),
            ),
            all_roles@.map_values(|x: HubRoleDef| x@) == first_of_each(chain_roles(chain_in(ws@, hub_type@))),
            errors_view(errors@) == e0 + assignment_errors(ws@, instance@, hub_type@, g, asgs.take(i as int)),
        decreases instance.assignments.len() - i,
    {
        let assignment = &instance.assignments[i];
        let ghost a = assignment@;
        let ghost before = errors_view(errors@);
        assert(asgs[i as int] == a);
        let is_field = crate::polymorphic::has_field_named(&all_fields, &assignment.name);
        match find_role_index(&all_roles, &assignment.name) {
            Some(k) => {
                validate_role_assignment(ws, &assignment.value, &all_roles[k], assignment.range, errors);
            },
            None => {
                if !is_field {
                    let m = concat5(
                        "Unknown field or role '",
                        assignment.name.as_str(),
                        "' for type '",
                        instance.instance_type.as_str(),
                        "'",
                    );
                    push_error(errors, assignment.range, m);
                } else {
                    match find_global_index(global_fields, &assignment.name) {
                        Some(k) => {
                            let expected = &global_fields[k].field_type;
                            if !validate_value_type(ws, &assignment.value, expected.as_str()) {
                                let m = concat5(
                                    "Type mismatch for field '",
                                    assignment.name.as_str(),
                                    "': expected '",
                                    expected.as_str(),
                                    "'",
                                );
                                push_error(errors, assignment.range, m);
                            } else {
                                assert(before + Seq::<ErrorView>::empty() =~= before);
                            }
                        },
                        None => {
                            assert(before + Seq::<ErrorView>::empty() =~= before);
                        },
                    }
                }
            },
        }
        proof {
            assert(errors_view(errors@) == before + one_assignment_errors(ws@, instance@, hub_type@, g, a));
            assert(asgs.take(i + 1).drop_last() =~= asgs.take(i as int));
            assert(asgs.take(i + 1).last() == a);
            assert(e0 + assignment_errors(ws@, instance@, hub_type@, g, asgs.take(i as int)) + one_assignment_errors(
                ws@,
                instance@,
                hub_type@,
                g,
                a,
            ) =~= e0 + assignment_errors(ws@, instance@, hub_type@, g, asgs.take(i + 1)));
        }
        i = i + 1;
    }
    assert(asgs.take(instance.assignments.len() as int) =~= asgs);
}

/// Some assignment of `asgs` is to `name`.
pub open spec fn assigns(asgs: Seq<AssignmentView>, name: Seq<char>) -> bool {
    exists|k: int| 0 <= k < asgs.len() && #[trigger] asgs[k].name == name
}

/// A diagnostic for each role of `roles` whose multiplicity requires at
/// least one reference and that `inst` does not assign.
pub open spec fn missing_role_errors(inst: InstanceView, roles: Seq<RoleView>, ty: Seq<char>) -> Seq<ErrorView>
    decreases roles.len(),
{
    if roles.len() == 0 {
        Seq::empty()
    } else {
        let rd = roles.last();
        missing_role_errors(inst, roles.drop_last(), ty) + if spec_min_required(spec_parse(rd.multiplicity))
            && !assigns(inst.assignments, rd.name) {
            seq![diag(inst.range, missing_role_message(rd.name, ty))]
        } else {
            Seq::empty()
        }
    }
}

pub(crate) fn is_assigned(instance: &HubInstance, name: &String) -> (b: bool)
    ensures
        b == assigns(instance@.assignments, name@),
{
    let mut i: usize = 0;
    while i < instance.assignments.len()
        invariant
            i <= instance.assignments.len(),
            forall|j: int| 0 <= j < i ==> #[trigger] instance@.assignments[j].name != name@,
        decreases instance.assignments.len() - i,
    {
        if instance.assignments[i].name == *name {
            assert(instance@.assignments[i as int].name == name@);
            return true;
        }
        i = i + 1;
    }
    false
}

/// Reports each role of `hub_type` (with those it inherits) that needs a
/// reference and that `instance` leaves unassigned; `type_label` is the
/// type name the message gives.
pub fn check_missing_roles(
    ws: &Workspace,
    instance: &HubInstance,
    hub_type: &HubType,
    type_label: &String,
    errors: &mut Vec<ValidationError>,
)
    ensures
        errors_view(final(errors)@) == errors_view(old(errors)@) + missing_role_errors(
            instance@,
            first_of_each(chain_roles(chain_in(ws@, hub_type@))),
            type_label@,
        ),
{
    let ghost e0 = errors_view(errors@);
    let all_roles = hub_type_all_roles(ws, hub_type);
    let ghost rv = all_roles@.map_values(|x: HubRoleDef| x@);
    let mut i: usize = 0;
    assert(rv.take(0) =~= Seq::<RoleView>::empty());
    assert(errors_view(errors@) =~= e0 + missing_role_errors(instance@, rv.take(0), type_label@));
    while i < all_roles.len()
        invariant
            i <= all_roles.len(),
            rv == all_roles@.map_values(|x: HubRoleDef| x@),
            errors_view(errors@) == e0 + missing_role_errors(instance@, rv.take(i as int), type_label@),
        decreases all_roles.len() - i,
    {
        let ghost before = errors_view(errors@);
        let role_def = &all_roles[i];
        let mult = Multiplicity::parse(role_def.multiplicity.as_str());
        if mult.min_required() && !is_assigned(instance, &role_def.name) {
            let m = concat5(
                "Missing required role '",
                role_def.name.as_str(),
                "' for type '",
                type_label.as_str(),
                "'",
            );
            push_error(errors, instance.range, m);
        } else {
            assert(before + Seq::<ErrorView>::empty() =~= before);
        }
        proof {
            assert(rv.take(i + 1).drop_last() =~= rv.take(i as int));
            assert(rv.take(i + 1).last() == role_def@);
            assert(errors_view(errors@) =~= e0 + missing_role_errors(instance@, rv.take(i + 1), type_label@));
        }
        i = i + 1;
    }
    assert(rv.take(all_roles.len() as int) =~= rv);
}

// ---------- a HubGS file ----------

/// A diagnostic for each of `insts`: its file has no definitions or imports.
pub open spec fn orphan_errors(insts: Seq<InstanceView>) -> Seq<ErrorView>
    decreases insts.len(),
{
    if insts.len() == 0 {
        Seq::empty()
    } else {
        orphan_errors(insts.drop_last()).push(diag(insts.last().range, orphan_message(insts.last())))
    }
}

/// Instances in a file with neither definitions nor imports are reported.
pub open spec fn orphan_stage(p: ParseView) -> Seq<ErrorView> {
    if p.instances.len() > 0 && p.types.len() == 0 && p.imports.len() == 0 {
        orphan_errors(p.instances)
    } else {
        Seq::empty()
    }
}

/// Some field declaration of `g` is named `name`.
pub open spec fn declares_field(g: Seq<GlobalFieldView>, name: Seq<char>) -> bool {
    exists|k: int| 0 <= k < g.len() && #[trigger] g[k].name == name
}

/// A diagnostic for each of `fields` (those of type `t`) that no FIELDS
/// block of the workspace declares.
pub open spec fn type_field_errors(t: TypeView, fields: Seq<FieldView>, g: Seq<GlobalFieldView>) -> Seq<ErrorView>
    decreases fields.len(),
{
    if fields.len() == 0 {
        Seq::empty()
    } else {
        let f = fields.last();
        let prev = type_field_errors(t, fields.drop_last(), g);
        if declares_field(g, f.name) {
            prev
        } else {
            prev.push(diag(f.range, undeclared_field_message(f.name, t.name)))
        }
    }
}

/// The undeclared-field diagnostics of the types `types`, type by type.
pub open spec fn field_def_errors(types: Seq<TypeView>, g: Seq<GlobalFieldView>) -> Seq<ErrorView>
    decreases types.len(),
{
    if types.len() == 0 {
        Seq::empty()
    } else {
        field_def_errors(types.drop_last(), g) + type_field_errors(types.last(), types.last().fields, g)
    }
}

/// The diagnostics of one instance of file `f`: its type unknown there,
/// or its assignments and missing roles checked against that type.
pub open spec fn one_instance_errors(ws: Seq<FileView>, f: FileView, inst: InstanceView, g: Seq<GlobalFieldView>) -> Seq<
    ErrorView,
> {
    match spec_resolve_type(ws, f, inst.instance_type) {
        Some(t) => assignment_errors(ws, inst, t, g, inst.assignments) + missing_role_errors(
            inst,
            first_of_each(chain_roles(chain_in(ws, t))),
            inst.instance_type,
        ),
        None => seq![diag(inst.range, unknown_type_message(inst.instance_type))],
    }
}

/// The diagnostics of the instances `insts` of file `f`, in order.
pub open spec fn instance_errors(ws: Seq<FileView>, f: FileView, insts: Seq<InstanceView>, g: Seq<GlobalFieldView>) -> Seq<
    ErrorView,
>
    decreases insts.len(),
{
    if insts.len() == 0 {
        Seq::empty()
    } else {
        instance_errors(ws, f, insts.drop_last(), g) + one_instance_errors(ws, f, insts.last(), g)
    }
}

/// All diagnostics of the HubGS file `f`: orphaned instances, undeclared
/// fields, then each instance.
pub open spec fn hubgs_errors(ws: Seq<FileView>, f: FileView) -> Seq<ErrorView> {
    orphan_stage(f.hubgs) + field_def_errors(f.hubgs.types, all_global_fields_of(ws)) + instance_errors(
        ws,
        f,
        f.hubgs.instances,
        all_global_fields_of(ws),
    )
}

fn declares_field_named(g: &Vec<GlobalField>, name: &String) -> (b: bool)
    ensures
        b == declares_field(g@.map_values(|x: GlobalField| x@), name@),
{
    let ghost v = g@.map_values(|x: GlobalField| x@);
    let mut i: usize = 0;
    while i < g.len()
        invariant
            i <= g.len(),
            v == g@.map_values(|x: GlobalField| x@),
            forall|j: int| 0 <= j < i ==> #[trigger] v[j].name != name@,
        decreases g.len() - i,
    {
        if g[i].name == *name {
            assert(v[i as int].name == name@);
            return true;
        }
        i = i + 1;
    }
    false
}

/// Checks the HubGS file `file` of `ws` and appends its diagnostics.
pub fn validate_hubgs(ws: &Workspace, file: &WorkspaceFile, errors: &mut Vec<ValidationError>)
    ensures
        errors_view(final(errors)@) == errors_view(old(errors)@) + hubgs_errors(ws@, file@),
{
    let ghost e0 = errors_view(errors@);
    let ghost f = file@;
    let ghost p = f.hubgs;
    // orphaned instances
    if file.hubgs.instances.len() > 0 && file.hubgs.types.len() == 0 && file.hubgs.imports.len() == 0 {
        let mut i: usize = 0;
        assert(p.instances.take(0) =~= Seq::<InstanceView>::empty());
        assert(errors_view(errors@) =~= e0 + orphan_errors(p.instances.take(0)));
        while i < file.hubgs.instances.len()
            invariant
                i <= file.hubgs.instances.len(),
                p == file@.hubgs,
                errors_view(errors@) == e0 + orphan_errors(p.instances.take(i as int)),
            decreases file.hubgs.instances.len() - i,
        {
            let inst = &file.hubgs.instances[i];
            let m = concat5(
                "Instance '",
                inst.name.as_str(),
                "' uses type '",
                inst.instance_type.as_str(),
                "' but no definitions or imports are present",
            );
            push_error(errors, inst.range, m);
            proof {
                assert(p.instances.take(i + 1).drop_last() =~= p.instances.take(i as int));
                assert(p.instances.take(i + 1).last() == inst@);
                assert(errors_view(errors@) =~= e0 + orphan_errors(p.instances.take(i + 1)));
            }
            i = i + 1;
        }
        assert(p.instances.take(file.hubgs.instances.len() as int) =~= p.instances);
    } else {
        assert(errors_view(errors@) =~= e0 + orphan_stage(p));
    }
    let ghost e1 = errors_view(errors@);
    assert(e1 == e0 + orphan_stage(p));
    // field definitions
    let global_fields = all_global_fields(ws);
    let ghost g = global_fields@.map_values(|x: GlobalField| x@);
    let mut ti: usize = 0;
    assert(p.types.take(0) =~= Seq::<TypeView>::empty());
    assert(errors_view(errors@) =~= e1 + field_def_errors(p.types.take(0), g));
    while ti < file.hubgs.types.len()
        invariant
            ti <= file.hubgs.types.len(),
            p == file@.hubgs,
            g == global_fields@.map_values(|x: GlobalField| x@),
            errors_view(errors@) == e1 + field_def_errors(p.types.take(ti as int), g),
        decreases file.hubgs.types.len() - ti,
    {
        let hub_type = &file.hubgs.types[ti];
        let ghost t = hub_type@;
        let ghost e2 = errors_view(errors@);
        let mut fi: usize = 0;
        assert(t.fields.take(0) =~= Seq::<FieldView>::empty());
        assert(errors_view(errors@) =~= e2 + type_field_errors(t, t.fields.take(0), g));
        while fi < hub_type.fields.len()
            invariant
                fi <= hub_type.fields.len(),
                t == hub_type@,
                g == global_fields@.map_values(|x: GlobalField| x@),
                errors_view(errors@) == e2 + type_field_errors(t, t.fields.take(fi as int), g),
            decreases hub_type.fields.len() - fi,
        {
            let field = &hub_type.fields[fi];
            let ghost before = errors_view(errors@);
            if !declares_field_named(&global_fields, &field.name) {
                let m = concat5(
                    "Field '",
                    field.name.as_str(),
                    "' used in Hub '",
                    hub_type.name.as_str(),
                    "' must be defined in a FIELDS block",
                );
                push_error(errors, field.range, m);
            }
            proof {
                assert(t.fields.take(fi + 1).drop_last() =~= t.fields.take(fi as int));
                assert(t.fields.take(fi + 1).last() == field@);
                assert(errors_view(errors@) =~= e2 + type_field_errors(t, t.fields.take(fi + 1), g));
            }
            fi = fi + 1;
        }
        proof {
            assert(t.fields.take(hub_type.fields.len() as int) =~= t.fields);
            assert(p.types.take(ti + 1).drop_last() =~= p.types.take(ti as int));
            assert(p.types.take(ti + 1).last() == t);
            assert(errors_view(errors@) =~= e1 + field_def_errors(p.types.take(ti + 1), g));
        }
        ti = ti + 1;
    }
    assert(p.types.take(file.hubgs.types.len() as int) =~= p.types);
    let ghost e3 = errors_view(errors@);
    // instances
    let mut ii: usize = 0;
    assert(p.instances.take(0) =~= Seq::<InstanceView>::empty());
    assert(errors_view(errors@) =~= e3 + instance_errors(ws@, f, p.instances.take(0), g));
    while ii < file.hubgs.instances.len()
        invariant
            ii <= file.hubgs.instances.len(),
            f == file@,
            p == file@.hubgs,
            g == global_fields@.map_values(|x: GlobalField| x@),
            errors_view(errors@) == e3 + instance_errors(ws@, f, p.instances.take(ii as int), g),
        decreases file.hubgs.instances.len() - ii,
    {
        let instance = &file.hubgs.instances[ii];
        let ghost before = errors_view(errors@);
        match resolve_type(ws, file, &instance.instance_type) {
            Some(hub_type) => {
                validate_instance_assignments(ws, instance, &hub_type, &global_fields, errors);
                check_missing_roles(ws, instance, &hub_type, &instance.instance_type, errors);
            },
            None => {
                let m = concat3("Unknown Hub type '", instance.instance_type.as_str(), "'");
                push_error(errors, instance.range, m);
            },
        }
        proof {
            assert(errors_view(errors@) =~= before + one_instance_errors(ws@, f, instance@, g));
            assert(p.instances.take(ii + 1).drop_last() =~= p.instances.take(ii as int));
            assert(p.instances.take(ii + 1).last() == instance@);
            assert(errors_view(errors@) =~= e3 + instance_errors(ws@, f, p.instances.take(ii + 1), g));
        }
        ii = ii + 1;
    }
    assert(p.instances.take(file.hubgs.instances.len() as int) =~= p.instances);
    assert(errors_view(errors@) =~= e0 + hubgs_errors(ws@, f));
}

// ---------- a workspace file ----------

/// All diagnostics of the file `f`: TWXML files and HubGS files are checked
/// by their own rules, other files have none.
pub open spec fn file_errors(
    ws: Seq<FileView>,
    f: FileView,
    tree: Option<crate::syntax::NodeView>,
    computed: Seq<Option<Seq<char>>>,
) -> Seq<ErrorView> {
    if crate::resolution::is_twxml(f.path) {
        crate::twxml_rules::twxml_errors(ws, f, tree, computed)
    } else if crate::resolution::is_hubgs(f.path) {
        hubgs_errors(ws, f)
    } else {
        Seq::empty()
    }
}

/// Validates one workspace file. For a TWXML file, `tree` is its syntax
/// tree when it could be parsed and `computed[k]` the text of the value
/// of the field shown by its `k`-th hub reference, when computable.
pub fn validate_file(
    ws: &Workspace,
    file: &WorkspaceFile,
    tree: Option<&crate::syntax::SyntaxNode>,
    computed: &Vec<Option<String>>,
) -> (r: Vec<ValidationError>)
    ensures
        errors_view(r@) == file_errors(
            ws@,
            file@,
            match tree {
                Some(t) => Some(t@),
                None => None,
            },
            crate::twxml_rules::computed_view(computed@),
        ),
{
    let mut errors: Vec<ValidationError> = Vec::new();
    assert(errors_view(errors@) =~= Seq::<ErrorView>::empty());
    if crate::resolution::is_twxml_path(&file.source.path) {
        crate::twxml_rules::validate_twxml(ws, file, tree, computed, &mut errors);
        assert(errors_view(errors@) =~= Seq::<ErrorView>::empty() + file_errors(
            ws@,
            file@,
            match tree {
                Some(t) => Some(t@),
                None => None,
            },
            crate::twxml_rules::computed_view(computed@),
        ));
    } else if crate::resolution::is_hubgs_path(&file.source.path) {
        validate_hubgs(ws, file, &mut errors);
        assert(errors_view(errors@) =~= Seq::<ErrorView>::empty() + hubgs_errors(ws@, file@));
    }
    errors
}

} // verus!

//! What computed and default field values read from the workspace, apart
//! from arithmetic: the instances a role reaches, whether a field's
//! default applies, and the text a value joins as.
use vstd::prelude::*;

use crate::completion::{first_role_named, role_index};
use crate::expression::{parse_expression, spec_parse_expression, Expr, ExprView};
use crate::model::{
    strings_view, values_view, AssignmentView, FieldView, FileView, HubAssignment, HubFieldDef, HubInstance, HubValue,
    InstanceView, ValueView, Workspace,
};
use crate::polymorphic::{contains_name, hub_type_allows, spec_allows};
use crate::references::{first_assignment, shown, shown_value};
use crate::resolution::{
    all_types_of, opt_instance_view, resolve_reference, resolve_type_at, resolve_type_at_path, spec_resolve_reference,
};
use crate::text::str_eq;
use crate::validation::{assigns, is_assigned, refs_of_value, value_refs};

verus! {

/// The text a value joins and concatenates as: text, number text,
/// `true`/`false` and identifiers; none for colors and arrays.
pub fn hub_value_to_string(v: &HubValue) -> (r: Option<String>)
    ensures
        match r {
            Some(s) => shown_value(v@) == Some(s@),
            None => shown_value(v@) is None,
        },
{
    shown(v)
}

/// An instance `t` may be reached through a role allowing `allowed`: its
/// type is listed, or its type (seen from its file) resolves and is allowed
/// with what it extends.
pub open spec fn target_fits(ws: Seq<FileView>, allowed: Seq<Seq<char>>, t: InstanceView) -> bool {
    allowed.contains(t.instance_type) || match resolve_type_at(ws, t.file, t.instance_type) {
        Some(pt) => spec_allows(all_types_of(ws), pt, allowed),
        None => false,
    }
}

/// The references among `refs` that name an instance fitting `allowed`,
/// as identifiers, in order.
pub open spec fn fitting_targets(ws: Seq<FileView>, allowed: Seq<Seq<char>>, refs: Seq<Seq<char>>) -> Seq<ValueView>
    decreases refs.len(),
{
    if refs.len() == 0 {
        Seq::empty()
    } else {
        fitting_targets(ws, allowed, refs.drop_last()) + match spec_resolve_reference(ws, refs.last()) {
            Some(t) => if target_fits(ws, allowed, t) {
                seq![ValueView::Identifier(refs.last())]
            } else {
                Seq::empty()
            },
            None => Seq::empty(),
        }
    }
}

/// The instances `inst` reaches through its role `role_name`: when its
/// type (seen from its file) declares the role and the instance assigns
/// it, the references of the assignment that name an instance fitting the
/// role; none otherwise.
pub open spec fn role_targets_of(ws: Seq<FileView>, inst: InstanceView, role_name: Seq<char>) -> Option<ValueView> {
    match resolve_type_at(ws, inst.file, inst.instance_type) {
        Some(t) => match first_role_named(t.roles, role_name) {
            Some(role) => match first_assignment(inst.assignments, role_name) {
                Some(a) => Some(ValueView::Array(fitting_targets(ws, role.allowed_types, value_refs(a.value)))),
                None => None,
            },
            None => None,
        },
        None => None,
    }
}

fn assignment_index(asgs: &Vec<HubAssignment>, name: &String) -> (r: Option<usize>)
    ensures
        match r {
            Some(i) => i < asgs.len() && first_assignment(asgs@.map_values(|a: HubAssignment| a@), name@) == Some(
                asgs@[i as int]@,
            ),
            None => first_assignment(asgs@.map_values(|a: HubAssignment| a@), name@) is None,
        },
{
    let ghost av = asgs@.map_values(|a: HubAssignment| a@);
    let mut i: usize = 0;
    assert(av.skip(0) =~= av);
    while i < asgs.len()
        invariant
            i <= asgs.len(),
            av == asgs@.map_values(|a: HubAssignment| a@),
            first_assignment(av, name@) == first_assignment(av.skip(i as int), name@),
        decreases asgs.len() - i,
    {
        assert(av.skip(i as int).drop_first() =~= av.skip(i + 1));
        assert(av.skip(i as int)[0] == asgs@[i as int]@);
        if asgs[i].name == *name {
            return Some(i);
        }
        i = i + 1;
    }
    None
}

/// The instances reached through a role (see `role_targets_of`).
pub fn resolve_role_targets(ws: &Workspace, inst: &HubInstance, role_name: &String) -> (r: Option<HubValue>)
    ensures
        match r {
            Some(v) => role_targets_of(ws@, inst@, role_name@) == Some(v@),
            None => role_targets_of(ws@, inst@, role_name@) is None,
        },
{
    let t = match resolve_type_at_path(ws, &inst.file, &inst.instance_type) {
        Some(t) => t,
        None => {
            return None;
        },
    };
    let ri = match role_index(&t.roles, role_name) {
        Some(i) => i,
        None => {
            return None;
        },
    };
    let role = &t.roles[ri];
    let ai = match assignment_index(&inst.assignments, role_name) {
        Some(i) => i,
        None => {
            return None;
        },
    };
    let refs = refs_of_value(&inst.assignments[ai].value);
    let ghost allowed = strings_view(role.allowed_types@);
    let ghost rv = strings_view(refs@);
    let mut targets: Vec<HubValue> = Vec::new();
    let mut k: usize = 0;
    assert(values_view(targets@) =~= Seq::<ValueView>::empty());
    while k < refs.len()
        invariant
            k <= refs.len(),
            allowed == strings_view(role.allowed_types@),
            rv == strings_view(refs@),
            values_view(targets@) == fitting_targets(ws@, allowed, rv.take(k as int)),
        decreases refs.len() - k,
    {
        assert(rv.take(k + 1).drop_last() =~= rv.take(k as int));
        assert(rv.take(k + 1).last() == refs@[k as int]@);
        match resolve_reference(ws, &refs[k]) {
            Some(target) => {
                let fits = contains_name(role.allowed_types.as_slice(), &target.instance_type) || match resolve_type_at_path(
                    ws,
                    &target.file,
                    &target.instance_type,
                ) {
                    Some(pt) => hub_type_allows(ws, &pt, role.allowed_types.as_slice()),
                    None => false,
                };
                if fits {
                    let ghost before = targets@;
                    let v = HubValue::Identifier(refs[k].clone());
                    targets.push(v);
                    proof {
                        crate::model::lemma_values_view_push(before, v);
                    }
                }
            },
            None => {},
        }
        assert(values_view(targets@) =~= fitting_targets(ws@, allowed, rv.take(k + 1)));
        k = k + 1;
    }
    assert(rv.take(k as int) =~= rv);
    Some(HubValue::Array(targets))
}

/// The first field of `fs` named `name`.
pub open spec fn first_field_named(fs: Seq<FieldView>, name: Seq<char>) -> Option<FieldView>
    decreases fs.len(),
{
    if fs.len() == 0 {
        None
    } else if fs[0].name == name {
        Some(fs[0])
    } else {
        first_field_named(fs.drop_first(), name)
    }
}

/// Whether the default of the field `name` applies to `inst`: when its
/// type (seen from its file) declares the field with `@default`, whether
/// the instance leaves it unassigned; none when the type or the field does
/// not resolve or the field has no default.
pub open spec fn default_needed(ws: Seq<FileView>, inst: InstanceView, name: Seq<char>) -> Option<bool> {
    match resolve_type_at(ws, inst.file, inst.instance_type) {
        Some(t) => match first_field_named(t.fields, name) {
            Some(f) => if f.decorator == Some("@default"@) {
                Some(!assigns(inst.assignments, name))
            } else {
                None
            },
            None => None,
        },
        None => None,
    }
}

/// Whether a field's default applies (see `default_needed`).
pub fn needs_default(ws: &Workspace, inst: &HubInstance, field_name: &String) -> (r: Option<bool>)
    ensures
        r == default_needed(ws@, inst@, field_name@),
{
    let t = match resolve_type_at_path(ws, &inst.file, &inst.instance_type) {
        Some(t) => t,
        None => {
            return None;
        },
    };
    let ghost fv = t@.fields;
    let mut i: usize = 0;
    assert(fv.skip(0) =~= fv);
    while i < t.fields.len()
        invariant
            i <= t.fields.len(),
            fv == t@.fields,
            fv == t.fields@.map_values(|f: HubFieldDef| f@),
            resolve_type_at(ws@, inst@.file, inst@.instance_type) == Some(t@),
            first_field_named(fv, field_name@) == first_field_named(fv.skip(i as int), field_name@),
        decreases t.fields.len() - i,
    {
        assert(fv.skip(i as int).drop_first() =~= fv.skip(i + 1));
        assert(fv.skip(i as int)[0] == t.fields@[i as int]@);
        if t.fields[i].name == *field_name {
            let has_default = match &t.fields[i].decorator {
                Some(d) => str_eq(d.as_str(), "@default"),
                None => false,
            };
            if !has_default {
                return None;
            }
            return Some(!is_assigned(inst, field_name));
        }
        i = i + 1;
    }
    None
}

// ---------- where a field's value comes from ----------

/// Where the value of a field of an instance comes from.
pub enum FieldSource {
    /// The instance assigns the field this value.
    Assigned(HubValue),
    /// The field is `@computed` by this expression.
    Computed(Expr),
    /// The field's `@default` expression applies.
    Default(Expr),
    /// The instance's type does not resolve.
    UnresolvedType,
    /// The field's `@computed` expression, which does not parse.
    Unparsable(String),
    /// The field has no value.
    Missing,
}

/// The view of a field's source.
pub enum SourceView {
    Assigned(ValueView),
    Computed(ExprView),
    Default(ExprView),
    UnresolvedType,
    Unparsable(Seq<char>),
    Missing,
}

/// The view of a field's source.
pub open spec fn source_view(s: FieldSource) -> SourceView {
    match s {
        FieldSource::Assigned(v) => SourceView::Assigned(v@),
        FieldSource::Computed(e) => SourceView::Computed(e@),
        FieldSource::Default(e) => SourceView::Default(e@),
        FieldSource::UnresolvedType => SourceView::UnresolvedType,
        FieldSource::Unparsable(x) => SourceView::Unparsable(x@),
        FieldSource::Missing => SourceView::Missing,
    }
}

/// Where the value of the field `name` of `inst` comes from, in this
/// order: the instance's first assignment of it; else, when the instance's
/// type (seen from its file) resolves, the field's expression when the
/// field is `@computed` (parsed, or marked unparsable), else its parsed
/// expression when its `@default` applies; nothing otherwise.
pub open spec fn field_source_of(ws: Seq<FileView>, inst: InstanceView, name: Seq<char>) -> SourceView {
    match first_assignment(inst.assignments, name) {
        Some(a) => SourceView::Assigned(a.value),
        None => match resolve_type_at(ws, inst.file, inst.instance_type) {
            None => SourceView::UnresolvedType,
            Some(t) => match first_field_named(t.fields, name) {
                Some(f) => match f.expression {
                    Some(x) => if f.decorator == Some("@computed"@) {
                        match spec_parse_expression(x) {
                            Some(e) => SourceView::Computed(e),
                            None => SourceView::Unparsable(x),
                        }
                    } else if default_needed(ws, inst, name) == Some(true) {
                        match spec_parse_expression(x) {
                            Some(e) => SourceView::Default(e),
                            None => SourceView::Missing,
                        }
                    } else {
                        SourceView::Missing
                    },
                    None => SourceView::Missing,
                },
                None => SourceView::Missing,
            },
        },
    }
}

/// Where the value of the field `name` of `inst` comes from (see
/// `field_source_of`); evaluating an expression is left to the caller.
pub fn field_value_source(ws: &Workspace, inst: &HubInstance, name: &String) -> (r: FieldSource)
    ensures
        source_view(r) == field_source_of(ws@, inst@, name@),
{
    let ghost av = inst@.assignments;
    let mut i: usize = 0;
    assert(av.skip(0) =~= av);
    while i < inst.assignments.len()
        invariant
            i <= inst.assignments.len(),
            av == inst@.assignments,
            av.len() == inst.assignments.len(),
            forall|k: int| 0 <= k < av.len() ==> av[k] == #[trigger] inst.assignments@[k]@,
            first_assignment(av, name@) == first_assignment(av.skip(i as int), name@),
        decreases inst.assignments.len() - i,
    {
        assert(av.skip(i as int).drop_first() =~= av.skip(i + 1));
        assert(av.skip(i as int)[0] == inst.assignments@[i as int]@);
        if inst.assignments[i].name == *name {
            return FieldSource::Assigned(crate::model::copy_value(&inst.assignments[i].value));
        }
        i = i + 1;
    }
    assert(av.skip(i as int) =~= Seq::<AssignmentView>::empty());
    assert(first_assignment(inst@.assignments, name@) is None);
    let t = match resolve_type_at_path(ws, &inst.file, &inst.instance_type) {
        Some(t) => t,
        None => {
            return FieldSource::UnresolvedType;
        },
    };
    let ghost fv = t@.fields;
    let mut j: usize = 0;
    assert(fv.skip(0) =~= fv);
    while j < t.fields.len()
        invariant
            j <= t.fields.len(),
            fv == t@.fields,
            fv == t.fields@.map_values(|f: HubFieldDef| f@),
            first_field_named(fv, name@) == first_field_named(fv.skip(j as int), name@),
            first_assignment(inst@.assignments, name@) is None,
            resolve_type_at(ws@, inst@.file, inst@.instance_type) == Some(t@),
        decreases t.fields.len() - j,
    {
        assert(fv.skip(j as int).drop_first() =~= fv.skip(j + 1));
        assert(fv.skip(j as int)[0] == t.fields@[j as int]@);
        if t.fields[j].name == *name {
            let f = &t.fields[j];
            let x = match &f.expression {
                Some(x) => x,
                None => {
                    return FieldSource::Missing;
                },
            };
            let computed = match &f.decorator {
                Some(d) => str_eq(d.as_str(), "@computed"),
                None => false,
            };
            if computed {
                return match parse_expression(x.as_str()) {
                    Some(e) => FieldSource::Computed(e),
                    None => FieldSource::Unparsable(x.clone()),
                };
            }
            if needs_default(ws, inst, name) == Some(true) {
                return match parse_expression(x.as_str()) {
                    Some(e) => FieldSource::Default(e),
                    None => FieldSource::Missing,
                };
            }
            return FieldSource::Missing;
        }
        j = j + 1;
    }
    assert(fv.skip(j as int) =~= Seq::<FieldView>::empty());
    FieldSource::Missing
}

// ---------- reading a member of a value ----------

/// What reading `.member` of a value gives, apart from computing fields.
pub enum MemberAccess {
    /// A value known at once: the number of items of an array.
    Value(HubValue),
    /// The field `member` of this instance, or, when it has no value, the
    /// instances its role `member` reaches.
    FieldOrRole(HubInstance),
    /// The field `member` of this instance.
    Field(HubInstance),
    /// Nothing.
    Nothing,
}

/// The view of a member access.
pub enum AccessView {
    Value(ValueView),
    FieldOrRole(InstanceView),
    Field(InstanceView),
    Nothing,
}

/// The view of a member access.
pub open spec fn access_view(a: MemberAccess) -> AccessView {
    match a {
        MemberAccess::Value(v) => AccessView::Value(v@),
        MemberAccess::FieldOrRole(i) => AccessView::FieldOrRole(i@),
        MemberAccess::Field(i) => AccessView::Field(i@),
        MemberAccess::Nothing => AccessView::Nothing,
    }
}

/// What `.member` of `target` reads: of an identifier other than `this`,
/// the instance it names (its field, else its role); of an array, its
/// length for `length`, else the field of the instance its first item
/// names; nothing otherwise or when no instance is named.
pub open spec fn member_access_of(ws: Seq<FileView>, target: ValueView, member: Seq<char>) -> AccessView {
    match target {
        ValueView::Identifier(id) => if id == "this"@ {
            AccessView::Nothing
        } else {
            match spec_resolve_reference(ws, id) {
                Some(i) => AccessView::FieldOrRole(i),
                None => AccessView::Nothing,
            }
        },
        ValueView::Array(items) => if member == "length"@ {
            AccessView::Value(ValueView::Number(crate::text::spec_decimal(items.len())))
        } else if items.len() > 0 && items[0] is Identifier {
            match spec_resolve_reference(ws, items[0]->Identifier_0) {
                Some(i) => AccessView::Field(i),
                None => AccessView::Nothing,
            }
        } else {
            AccessView::Nothing
        },
        _ => AccessView::Nothing,
    }
}

/// What `.member` of `target` reads (see `member_access_of`); computing a
/// field's value is left to the caller.
pub fn member_access(ws: &Workspace, target: &HubValue, member: &str) -> (r: MemberAccess)
    ensures
        access_view(r) == member_access_of(ws@, target@, member@),
{
    match target {
        HubValue::Identifier(id) => {
            if str_eq(id.as_str(), "this") {
                return MemberAccess::Nothing;
            }
            match resolve_reference(ws, id) {
                Some(i) => MemberAccess::FieldOrRole(i),
                None => MemberAccess::Nothing,
            }
        },
        HubValue::Array(items) => {
            proof {
                crate::model::lemma_values_view_index(items@);
            }
            if str_eq(member, "length") {
                return MemberAccess::Value(HubValue::Number(crate::text::decimal(items.len() as u64)));
            }
            if items.len() > 0 {
                match &items[0] {
                    HubValue::Identifier(id) => {
                        return match resolve_reference(ws, id) {
                            Some(i) => MemberAccess::Field(i),
                            None => MemberAccess::Nothing,
                        };
                    },
                    _ => {},
                }
            }
            MemberAccess::Nothing
        },
        _ => MemberAccess::Nothing,
    }
}

} // verus!

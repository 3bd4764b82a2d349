//! Where an instance is referred to across the workspace, and the display
//! and background values an instance shows.
use vstd::prelude::*;

use crate::model::{
    lemma_values_view_index, value_view, values_view, AssignmentView, FieldView, FileView, HubAssignment,
    HubFieldDef, HubInstance, HubReference, HubValue, InstanceView, ReferenceView, ValueView, Workspace,
};
use crate::polymorphic::{chain_fields, chain_in, first_of_each, hub_type_all_fields};
use crate::position::LspRange;
use crate::resolution::{is_hubgs, is_hubgs_path, is_twxml, is_twxml_path, resolve_type_at, resolve_type_at_path};
use crate::text::owned;

verus! {

// ---------- references ----------

/// Whether `v` names `name`: it is that identifier, or an array holding it.
pub open spec fn mentions(v: ValueView, name: Seq<char>) -> bool
    decreases v,
{
    match v {
        ValueView::Identifier(s) => s == name,
        ValueView::Array(vs) => values_mention(vs, name),
        _ => false,
    }
}

/// Whether some value of `vs` names `name`.
pub open spec fn values_mention(vs: Seq<ValueView>, name: Seq<char>) -> bool
    decreases vs,
{
    if vs.len() == 0 {
        false
    } else {
        mentions(vs[0], name) || values_mention(vs.drop_first(), name)
    }
}

/// `range` when `value` names `name`.
pub fn find_ref_in_value(value: &HubValue, name: &String, range: LspRange) -> (r: Option<LspRange>)
    ensures
        r == if mentions(value@, name@) {
            Some(range)
        } else {
            None
        },
    decreases value,
{
    match value {
        HubValue::Identifier(s) => {
            if *s == *name {
                Some(range)
            } else {
                None
            }
        },
        HubValue::Array(vals) => {
            if values_mention_exec(vals, name) {
                Some(range)
            } else {
                None
            }
        },
        _ => None,
    }
}

fn values_mention_exec(vals: &Vec<HubValue>, name: &String) -> (b: bool)
    ensures
        b == values_mention(values_view(vals@), name@),
    decreases vals,
{
    proof {
        lemma_values_view_index(vals@);
    }
    let ghost vv = values_view(vals@);
    let mut i: usize = 0;
    assert(vv.skip(0) =~= vv);
    while i < vals.len()
        invariant
            i <= vals.len(),
            vv == values_view(vals@),
            vv.len() == vals@.len(),
            forall|j: int| 0 <= j < vals@.len() ==> #[trigger] vv[j] == value_view(vals@[j]),
            values_mention(vv, name@) == values_mention(vv.skip(i as int), name@),
        decreases vals.len() - i,
    {
        assert(vv.skip(i as int).drop_first() =~= vv.skip(i + 1));
        assert(vv.skip(i as int)[0] == vv[i as int]);
        assert(decreases_to!(vals => vals@[i as int]));
        let r = LspRange::zero();
        if find_ref_in_value(&vals[i], name, r).is_some() {
            return true;
        }
        i = i + 1;
    }
    false
}

/// The references of `rs` to `name`.
pub open spec fn refs_named(rs: Seq<ReferenceView>, name: Seq<char>) -> Seq<ReferenceView>
    decreases rs.len(),
{
    if rs.len() == 0 {
        Seq::empty()
    } else {
        refs_named(rs.drop_last(), name) + if rs.last().name == name {
            seq![rs.last()]
        } else {
            Seq::empty()
        }
    }
}

/// A reference to `name` made by an assignment of a HubGS file.
pub open spec fn assignment_ref(name: Seq<char>, path: Seq<char>, range: LspRange) -> ReferenceView {
    ReferenceView {
        name,
        file: path,
        range,
        field: None,
        text: None,
        tag_range: range,
        is_reviewed: false,
    }
}

/// The references to `name` made by the assignments `asgs`.
pub open spec fn assignment_refs(asgs: Seq<AssignmentView>, path: Seq<char>, name: Seq<char>) -> Seq<ReferenceView>
    decreases asgs.len(),
{
    if asgs.len() == 0 {
        Seq::empty()
    } else {
        assignment_refs(asgs.drop_last(), path, name) + if mentions(asgs.last().value, name) {
            seq![assignment_ref(name, path, asgs.last().range)]
        } else {
            Seq::empty()
        }
    }
}

/// The references to `name` made by the instances `insts` of the file `path`.
pub open spec fn instance_refs(insts: Seq<InstanceView>, path: Seq<char>, name: Seq<char>) -> Seq<ReferenceView>
    decreases insts.len(),
{
    if insts.len() == 0 {
        Seq::empty()
    } else {
        instance_refs(insts.drop_last(), path, name) + assignment_refs(insts.last().assignments, path, name)
    }
}

/// The references to `name` in one file: its hub references in TWXML, its
/// assignments in HubGS.
pub open spec fn file_refs(f: FileView, name: Seq<char>) -> Seq<ReferenceView> {
    if is_twxml(f.path) {
        refs_named(f.references, name)
    } else if is_hubgs(f.path) {
        instance_refs(f.hubgs.instances, f.path, name)
    } else {
        Seq::empty()
    }
}

/// The references to `name` in the workspace, file by file.
pub open spec fn workspace_refs(ws: Seq<FileView>, name: Seq<char>) -> Seq<ReferenceView>
    decreases ws.len(),
{
    if ws.len() == 0 {
        Seq::empty()
    } else {
        workspace_refs(ws.drop_last(), name) + file_refs(ws.last(), name)
    }
}

/// The views of a sequence of references.
pub open spec fn refs_view(v: Seq<HubReference>) -> Seq<ReferenceView> {
    v.map_values(|r: HubReference| r@)
}

fn push_ref(out: &mut Vec<HubReference>, r: HubReference)
    ensures
        refs_view(final(out)@) == refs_view(old(out)@).push(r@),
{
    let ghost o0 = out@;
    let ghost v = r@;
    out.push(r);
    assert(refs_view(out@) =~= refs_view(o0).push(v));
}

fn collect_assignment_refs(
    asgs: &Vec<HubAssignment>,
    path: &String,
    name: &String,
    out: &mut Vec<HubReference>,
)
    ensures
        refs_view(final(out)@) == refs_view(old(out)@) + assignment_refs(
            asgs@.map_values(|a: HubAssignment| a@),
            path@,
            name@,
        ),
{
    let ghost av = asgs@.map_values(|a: HubAssignment| a@);
    let ghost o0 = refs_view(out@);
    let mut i: usize = 0;
    assert(av.take(0) =~= Seq::<AssignmentView>::empty());
    assert(refs_view(out@) =~= o0 + assignment_refs(av.take(0), path@, name@));
    while i < asgs.len()
        invariant
            i <= asgs.len(),
            av == asgs@.map_values(|a: HubAssignment| a@),
            refs_view(out@) == o0 + assignment_refs(av.take(i as int), path@, name@),
        decreases asgs.len() - i,
    {
        let a = &asgs[i];
        assert(av.take(i + 1).drop_last() =~= av.take(i as int));
        assert(av.take(i + 1).last() == a@);
        let ghost before = refs_view(out@);
        match find_ref_in_value(&a.value, name, a.range) {
            Some(range) => {
                let r = HubReference {
                    name: name.clone(),
                    file: path.clone(),
                    range,
                    field: None,
                    text: None,
                    tag_range: range,
                    is_reviewed: false,
                };
                assert(r@ == assignment_ref(name@, path@, a@.range));
                push_ref(out, r);
            },
            None => {},
        }
        assert(refs_view(out@) =~= o0 + assignment_refs(av.take(i + 1), path@, name@));
        i = i + 1;
    }
    assert(av.take(asgs.len() as int) =~= av);
}

/// Every reference to the instance `name`: the hub references of TWXML
/// files and the assignments of HubGS files that name it.
pub fn find_all_references(ws: &Workspace, name: &String) -> (r: Vec<HubReference>)
    ensures
        refs_view(r@) == workspace_refs(ws@, name@),
{
    let mut out: Vec<HubReference> = Vec::new();
    let mut i: usize = 0;
    assert(ws@.take(0) =~= Seq::<FileView>::empty());
    assert(refs_view(out@) =~= Seq::<ReferenceView>::empty());
    while i < ws.files.len()
        invariant
            i <= ws.files.len(),
            refs_view(out@) == workspace_refs(ws@.take(i as int), name@),
        decreases ws.files.len() - i,
    {
        let f = &ws.files[i];
        assert(ws@.take(i + 1).drop_last() =~= ws@.take(i as int));
        assert(ws@.take(i + 1).last() == f@);
        let ghost base = refs_view(out@);
        if is_twxml_path(&f.source.path) {
            let ghost rs = f@.references;
            let mut k: usize = 0;
            assert(rs.take(0) =~= Seq::<ReferenceView>::empty());
            assert(refs_view(out@) =~= base + refs_named(rs.take(0), name@));
            while k < f.references.len()
                invariant
                    k <= f.references.len(),
                    rs == f@.references,
                    refs_view(out@) == base + refs_named(rs.take(k as int), name@),
                decreases f.references.len() - k,
            {
                assert(rs.take(k + 1).drop_last() =~= rs.take(k as int));
                assert(rs.take(k + 1).last() == f.references@[k as int]@);
                if f.references[k].name == *name {
                    push_ref(&mut out, f.references[k].copy());
                }
                assert(refs_view(out@) =~= base + refs_named(rs.take(k + 1), name@));
                k = k + 1;
            }
            assert(rs.take(f.references.len() as int) =~= rs);
        } else if is_hubgs_path(&f.source.path) {
            let ghost insts = f@.hubgs.instances;
            let mut k: usize = 0;
            assert(insts.take(0) =~= Seq::<InstanceView>::empty());
            assert(refs_view(out@) =~= base + instance_refs(insts.take(0), f@.path, name@));
            while k < f.hubgs.instances.len()
                invariant
                    k <= f.hubgs.instances.len(),
                    insts == f@.hubgs.instances,
                    refs_view(out@) == base + instance_refs(insts.take(k as int), f@.path, name@),
                decreases f.hubgs.instances.len() - k,
            {
                assert(insts.take(k + 1).drop_last() =~= insts.take(k as int));
                assert(insts.take(k + 1).last() == f.hubgs.instances@[k as int]@);
                let ghost b2 = refs_view(out@);
                collect_assignment_refs(&f.hubgs.instances[k].assignments, &f.source.path, name, &mut out);
                assert(refs_view(out@) =~= base + instance_refs(insts.take(k + 1), f@.path, name@));
                k = k + 1;
            }
            assert(insts.take(f.hubgs.instances.len() as int) =~= insts);
        } else {
            assert(refs_view(out@) =~= base + Seq::<ReferenceView>::empty());
        }
        i = i + 1;
    }
    assert(ws@.take(ws.files.len() as int) =~= ws@);
    out
}

// ---------- metadata ----------

/// The first field of `fs` marked as the display field.
pub open spec fn first_display(fs: Seq<FieldView>) -> Option<FieldView>
    decreases fs.len(),
{
    if fs.len() == 0 {
        None
    } else if fs[0].is_display {
        Some(fs[0])
    } else {
        first_display(fs.drop_first())
    }
}

/// The first field of `fs` marked as the background field.
pub open spec fn first_background(fs: Seq<FieldView>) -> Option<FieldView>
    decreases fs.len(),
{
    if fs.len() == 0 {
        None
    } else if fs[0].is_background {
        Some(fs[0])
    } else {
        first_background(fs.drop_first())
    }
}

/// The first assignment of `asgs` to `name`.
pub open spec fn first_assignment(asgs: Seq<AssignmentView>, name: Seq<char>) -> Option<AssignmentView>
    decreases asgs.len(),
{
    if asgs.len() == 0 {
        None
    } else if asgs[0].name == name {
        Some(asgs[0])
    } else {
        first_assignment(asgs.drop_first(), name)
    }
}

/// A value as shown in text: text, numbers, booleans and identifiers as
/// written; other values show nothing.
pub open spec fn shown_value(v: ValueView) -> Option<Seq<char>> {
    match v {
        ValueView::Text(s) => Some(s),
        ValueView::Number(s) => Some(s),
        ValueView::Boolean(b) => Some(if b { "true"@ } else { "false"@ }),
        ValueView::Identifier(s) => Some(s),
        _ => None,
    }
}

/// The assignment of `inst` to the field its type (with what it inherits)
/// marks with `marked` (display when true, background when false).
pub open spec fn marked_assignment(ws: Seq<FileView>, inst: InstanceView, display: bool) -> Option<AssignmentView> {
    match resolve_type_at(ws, inst.file, inst.instance_type) {
        Some(t) => {
            let fields = first_of_each(chain_fields(chain_in(ws, t)));
            match if display { first_display(fields) } else { first_background(fields) } {
                Some(f) => first_assignment(inst.assignments, f.name),
                None => None,
            }
        },
        None => None,
    }
}

fn marked_assignment_index(ws: &Workspace, inst: &HubInstance, display: bool) -> (r: Option<usize>)
    ensures
        match r {
            Some(i) => i < inst.assignments.len() && marked_assignment(ws@, inst@, display) == Some(
                inst@.assignments[i as int],
            ),
            None => marked_assignment(ws@, inst@, display) is None,
        },
{
    let t = match resolve_type_at_path(ws, &inst.file, &inst.instance_type) {
        Some(t) => t,
        None => return None,
    };
    let fields = hub_type_all_fields(ws, &t);
    let ghost fv = fields@.map_values(|f: HubFieldDef| f@);
    let mut i: usize = 0;
    assert(fv.skip(0) =~= fv);
    while i < fields.len()
        invariant
            i <= fields.len(),
            fv == fields@.map_values(|f: HubFieldDef| f@),
            fv == first_of_each(chain_fields(chain_in(ws@, t@))),
            resolve_type_at(ws@, inst@.file, inst@.instance_type) == Some(t@),
            (if display { first_display(fv) } else { first_background(fv) }) == (if display {
                first_display(fv.skip(i as int))
            } else {
                first_background(fv.skip(i as int))
            }),
        decreases fields.len() - i,
    {
        assert(fv.skip(i as int).drop_first() =~= fv.skip(i + 1));
        assert(fv.skip(i as int)[0] == fields@[i as int]@);
        let hit = if display { fields[i].is_display } else { fields[i].is_background };
        if hit {
            let name = &fields[i].name;
            let ghost av = inst@.assignments;
            assert(marked_assignment(ws@, inst@, display) == first_assignment(av, name@));
            let mut k: usize = 0;
            assert(av.skip(0) =~= av);
            while k < inst.assignments.len()
                invariant
                    k <= inst.assignments.len(),
                    av == inst@.assignments,
                    marked_assignment(ws@, inst@, display) == first_assignment(av, name@),
                    first_assignment(av, name@) == first_assignment(av.skip(k as int), name@),
                decreases inst.assignments.len() - k,
            {
                assert(av.skip(k as int).drop_first() =~= av.skip(k + 1));
                assert(av.skip(k as int)[0] == inst.assignments@[k as int]@);
                if inst.assignments[k].name == *name {
                    return Some(k);
                }
                k = k + 1;
            }
            return None;
        }
        i = i + 1;
    }
    None
}

pub(crate) fn shown(v: &HubValue) -> (r: Option<String>)
    ensures
        match r {
            Some(s) => shown_value(v@) == Some(s@),
            None => shown_value(v@) is None,
        },
{
    match v {
        HubValue::Text(s) => Some(s.clone()),
        HubValue::Number(n) => Some(n.clone()),
        HubValue::Boolean(b) => Some(
            if *b {
                owned("true")
            } else {
                owned("false")
            },
        ),
        HubValue::Identifier(i) => Some(i.clone()),
        _ => None,
    }
}

/// The value an instance shows as its label: that of its type's display
/// field, when assigned and shown as text.
pub fn hub_instance_metadata_display(ws: &Workspace, inst: &HubInstance) -> (r: Option<String>)
    ensures
        match r {
            Some(s) => marked_assignment(ws@, inst@, true) matches Some(a) && shown_value(a.value) == Some(s@),
            None => !(marked_assignment(ws@, inst@, true) matches Some(a) && shown_value(a.value) is Some),
        },
{
    match marked_assignment_index(ws, inst, true) {
        Some(k) => shown(&inst.assignments[k].value),
        None => None,
    }
}

/// The value an instance shows as its background: that of its type's
/// background field, when assigned and shown as text.
pub fn hub_instance_metadata_background(ws: &Workspace, inst: &HubInstance) -> (r: Option<String>)
    ensures
        match r {
            Some(s) => marked_assignment(ws@, inst@, false) matches Some(a) && shown_value(a.value) == Some(s@),
            None => !(marked_assignment(ws@, inst@, false) matches Some(a) && shown_value(a.value) is Some),
        },
{
    match marked_assignment_index(ws, inst, false) {
        Some(k) => shown(&inst.assignments[k].value),
        None => None,
    }
}

/// Where the background value of an instance is written.
pub fn hub_instance_metadata_background_range(ws: &Workspace, inst: &HubInstance) -> (r: Option<LspRange>)
    ensures
        r == match marked_assignment(ws@, inst@, false) {
            Some(a) => Some(a.value_range),
            None => None,
        },
{
    match marked_assignment_index(ws, inst, false) {
        Some(k) => Some(inst.assignments[k].value_range),
        None => None,
    }
}

// ---------- values in hovers ----------

/// A value as its `Display` shows it: text and identifiers as written,
/// numbers by their decimal text, colors as `color(..)`, arrays as nothing.
pub open spec fn display_value(v: ValueView) -> Seq<char> {
    match v {
        ValueView::Text(s) => s,
        ValueView::ColorHex(s) => "color("@ + s + ")"@,
        ValueView::Number(s) => s,
        ValueView::Identifier(s) => s,
        ValueView::Boolean(b) => if b { "true"@ } else { "false"@ },
        ValueView::Array(_) => Seq::empty(),
    }
}

/// An array element in a hover: text quoted, the rest displayed.
pub open spec fn hover_item(v: ValueView) -> Seq<char> {
    match v {
        ValueView::Text(s) => "\""@ + s + "\""@,
        _ => display_value(v),
    }
}

/// A value in a hover: text quoted, arrays as `[a, b]` of their items,
/// the rest displayed.
pub open spec fn spec_format_hub_value(v: ValueView) -> Seq<char> {
    match v {
        ValueView::Text(s) => "\""@ + s + "\""@,
        ValueView::Array(items) => "["@ + crate::text::spec_join(items.map_values(|x: ValueView| hover_item(x)), ", "@)
            + "]"@,
        _ => display_value(v),
    }
}

pub fn display_of(v: &HubValue) -> (r: String)
    ensures
        r@ == display_value(v@),
{
    match v {
        HubValue::Text(s) => s.clone(),
        HubValue::ColorHex(s) => {
            let mut r = owned("color(");
            r.append(s.as_str());
            r.append(")");
            r
        },
        HubValue::Number(n) => n.clone(),
        HubValue::Identifier(i) => i.clone(),
        HubValue::Boolean(b) => if *b {
            owned("true")
        } else {
            owned("false")
        },
        HubValue::Array(_) => String::new(),
    }
}

fn hover_item_of(v: &HubValue) -> (r: String)
    ensures
        r@ == hover_item(v@),
{
    match v {
        HubValue::Text(s) => {
            let mut r = owned("\"");
            r.append(s.as_str());
            r.append("\"");
            r
        },
        _ => display_of(v),
    }
}

/// A value as a hover shows it.
pub fn format_hub_value(val: &HubValue) -> (r: String)
    ensures
        r@ == spec_format_hub_value(val@),
{
    match val {
        HubValue::Text(s) => {
            let mut r = owned("\"");
            r.append(s.as_str());
            r.append("\"");
            r
        },
        HubValue::Array(items) => {
            proof {
                lemma_values_view_index(items@);
            }
            let ghost iv = values_view(items@);
            let mut parts: Vec<String> = Vec::new();
            let mut i: usize = 0;
            while i < items.len()
                invariant
                    i <= items.len(),
                    iv == values_view(items@),
                    iv.len() == items@.len(),
                    forall|j: int| 0 <= j < items@.len() ==> #[trigger] iv[j] == value_view(items@[j]),
                    crate::text::views(parts@) == iv.take(i as int).map_values(|x: ValueView| hover_item(x)),
                decreases items.len() - i,
            {
                let ghost p0 = crate::text::views(parts@);
                let part = hover_item_of(&items[i]);
                let ghost pv = part@;
                parts.push(part);
                assert(crate::text::views(parts@) =~= p0.push(pv));
                assert(iv.take(i + 1).map_values(|x: ValueView| hover_item(x)) =~= iv.take(i as int).map_values(
                    |x: ValueView| hover_item(x),
                ).push(hover_item(iv[i as int])));
                i = i + 1;
            }
            assert(iv.take(items.len() as int) =~= iv);
            let mut r = owned("[");
            let j = crate::text::join(&parts, ", ");
            r.append(j.as_str());
            r.append("]");
            r
        },
        _ => display_of(val),
    }
}

} // verus!

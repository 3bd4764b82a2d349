//! Completion: the items offered in TWXML and HubGS documents — hub
//! instances, hub types, fields and roles, TWXML tags and generated UUIDs —
//! chosen by the context at the cursor.
use vstd::prelude::*;

use crate::hubgs_tree::{
    get_hub_type_at_position, get_hubgs_completion_context, has_hub_definition, hub_type_up, hubgs_context,
    is_in_hub_definition, HubgsCompletionContext, HubgsContextView,
};
use crate::model::{
    opt_view, strings_view, FieldView, GlobalField, GlobalFieldView, HubFieldDef, HubInstance, HubRoleDef, HubType,
    InstanceView, RoleView, TypeView, Workspace,
};
use crate::polymorphic::{chain_fields, chain_in, chain_roles, first_of_each, hub_type_all_fields, hub_type_all_roles, hub_type_allows, spec_allows};
use crate::polymorphic::contains_name;
use crate::position::{LspPosition, LspRange};
use crate::references::{hub_instance_metadata_display, marked_assignment, shown_value};
use crate::resolution::{
    all_global_fields, all_global_fields_of, all_hub_instances, all_hub_types, all_instances_of, all_types_of,
    resolve_reference, resolve_type_at, resolve_type_at_path, spec_resolve_reference,
};
use crate::syntax::SyntaxNode;
use crate::text::{owned, str_eq};
use crate::tree_query::descent_path;

verus! {

/// The kind of a completion item.
#[derive(Clone, Copy, Debug, PartialEq, Eq, Structural)]
pub enum ItemKind {
    Snippet,
    Reference,
    Field,
    Interface,
    Class,
    Value,
}

/// A replacement of the text of a range.
pub struct ReplaceEdit {
    pub range: LspRange,
    pub new_text: String,
}

/// A completion item.
pub struct CompletionEntry {
    pub label: String,
    pub kind: ItemKind,
    pub detail: String,
    /// Text inserted in place of the label, as plain text.
    pub insert_text: Option<String>,
    /// Text the editor matches what was typed against.
    pub filter_text: Option<String>,
    /// An edit applied when the item is chosen.
    pub edit: Option<ReplaceEdit>,
}

/// The view of a completion item.
pub struct EntryView {
    pub label: Seq<char>,
    pub kind: ItemKind,
    pub detail: Seq<char>,
    pub insert_text: Option<Seq<char>>,
    pub filter_text: Option<Seq<char>>,
    pub edit: Option<(LspRange, Seq<char>)>,
}

impl View for CompletionEntry {
    type V = EntryView;

    open spec fn view(&self) -> EntryView {
        EntryView {
            label: self.label@,
            kind: self.kind,
            detail: self.detail@,
            insert_text: opt_view(self.insert_text),
            filter_text: opt_view(self.filter_text),
            edit: match self.edit {
                Some(e) => Some((e.range, e.new_text@)),
                None => None,
            },
        }
    }
}

/// The views of a sequence of completion items.
pub open spec fn entries_view(s: Seq<CompletionEntry>) -> Seq<EntryView> {
    s.map_values(|e: CompletionEntry| e@)
}

/// An item with only a label, a kind and a detail.
pub open spec fn plain_entry(label: Seq<char>, kind: ItemKind, detail: Seq<char>) -> EntryView {
    EntryView { label, kind, detail, insert_text: None, filter_text: None, edit: None }
}

fn plain(label: String, kind: ItemKind, detail: String) -> (r: CompletionEntry)
    ensures
        r@ == plain_entry(label@, kind, detail@),
{
    CompletionEntry { label, kind, detail, insert_text: None, filter_text: None, edit: None }
}

// ---------- hub instances ----------

/// The label an instance shows: its display field's value, when assigned
/// and shown as text.
pub open spec fn display_label(ws: Seq<crate::model::FileView>, inst: InstanceView) -> Option<Seq<char>> {
    match marked_assignment(ws, inst, true) {
        Some(a) => shown_value(a.value),
        None => None,
    }
}

/// The detail of an instance item: its type, and its label when it has one.
pub open spec fn instance_detail(ws: Seq<crate::model::FileView>, inst: InstanceView) -> Seq<char> {
    match display_label(ws, inst) {
        Some(d) => "Hub Instance ("@ + inst.instance_type + ") - "@ + d,
        None => "Hub Instance ("@ + inst.instance_type + ")"@,
    }
}

/// The item offering an instance.
pub open spec fn instance_entry(ws: Seq<crate::model::FileView>, inst: InstanceView) -> EntryView {
    plain_entry(inst.name, ItemKind::Reference, instance_detail(ws, inst))
}

/// The item offering `inst`.
pub fn instance_completion_item(ws: &Workspace, inst: &HubInstance) -> (r: CompletionEntry)
    ensures
        r@ == instance_entry(ws@, inst@),
{
    let display = hub_instance_metadata_display(ws, inst);
    let mut detail = owned("Hub Instance (");
    detail.append(inst.instance_type.as_str());
    match display {
        Some(d) => {
            detail.append(") - ");
            detail.append(d.as_str());
        },
        None => {
            detail.append(")");
        },
    }
    plain(inst.name.clone(), ItemKind::Reference, detail)
}

/// The items offering every instance of the workspace.
pub open spec fn all_instance_entries(ws: Seq<crate::model::FileView>) -> Seq<EntryView> {
    all_instances_of(ws).map_values(|i: InstanceView| instance_entry(ws, i))
}

/// Every instance of the workspace, as items.
pub fn complete_hubref_id_instances(ws: &Workspace) -> (r: Vec<CompletionEntry>)
    ensures
        entries_view(r@) == all_instance_entries(ws@),
{
    let all = all_hub_instances(ws);
    let ghost iv = all@.map_values(|i: HubInstance| i@);
    let mut out: Vec<CompletionEntry> = Vec::new();
    let mut k: usize = 0;
    while k < all.len()
        invariant
            k <= all.len(),
            iv == all@.map_values(|i: HubInstance| i@),
            iv == all_instances_of(ws@),
            entries_view(out@) == iv.take(k as int).map_values(|i: InstanceView| instance_entry(ws@, i)),
        decreases all.len() - k,
    {
        let e = instance_completion_item(ws, &all[k]);
        let ghost before = entries_view(out@);
        out.push(e);
        assert(entries_view(out@) =~= before.push(e@));
        assert(iv.take(k + 1).map_values(|i: InstanceView| instance_entry(ws@, i)) =~= iv.take(k as int).map_values(
            |i: InstanceView| instance_entry(ws@, i),
        ).push(instance_entry(ws@, iv[k as int])));
        k = k + 1;
    }
    assert(iv.take(k as int) =~= iv);
    out
}

// ---------- hub types, fields and roles ----------

/// The items offering every hub type of the workspace.
pub open spec fn type_entries(ws: Seq<crate::model::FileView>) -> Seq<EntryView> {
    all_types_of(ws).map_values(|t: TypeView| plain_entry(t.name, ItemKind::Class, "Hub Type"@))
}

/// Every hub type of the workspace, as items.
pub fn complete_allows_list(ws: &Workspace) -> (r: Vec<CompletionEntry>)
    ensures
        entries_view(r@) == type_entries(ws@),
{
    let all = all_hub_types(ws);
    let ghost tv = all@.map_values(|t: HubType| t@);
    let mut out: Vec<CompletionEntry> = Vec::new();
    let mut k: usize = 0;
    while k < all.len()
        invariant
            k <= all.len(),
            tv == all@.map_values(|t: HubType| t@),
            tv == all_types_of(ws@),
            entries_view(out@) == tv.take(k as int).map_values(
                |t: TypeView| plain_entry(t.name, ItemKind::Class, "Hub Type"@),
            ),
        decreases all.len() - k,
    {
        let e = plain(all[k].name.clone(), ItemKind::Class, owned("Hub Type"));
        let ghost before = entries_view(out@);
        out.push(e);
        assert(entries_view(out@) =~= before.push(e@));
        assert(tv.take(k + 1).map_values(|t: TypeView| plain_entry(t.name, ItemKind::Class, "Hub Type"@))
            =~= tv.take(k as int).map_values(|t: TypeView| plain_entry(t.name, ItemKind::Class, "Hub Type"@)).push(
            plain_entry(tv[k as int].name, ItemKind::Class, "Hub Type"@),
        ));
        k = k + 1;
    }
    assert(tv.take(k as int) =~= tv);
    out
}

/// The items offering the fields, then the roles, of `t` with what it
/// inherits.
pub open spec fn member_entries(ws: Seq<crate::model::FileView>, t: TypeView) -> Seq<EntryView> {
    first_of_each(chain_fields(chain_in(ws, t))).map_values(
        |f: FieldView| plain_entry(f.name, ItemKind::Field, "Field"@),
    ) + first_of_each(chain_roles(chain_in(ws, t))).map_values(
        |r: RoleView| plain_entry(r.name, ItemKind::Interface, "Role"@),
    )
}

/// The fields and roles of `hub_type`, with what it inherits, as items.
pub fn complete_fields_and_roles(ws: &Workspace, hub_type: &HubType) -> (r: Vec<CompletionEntry>)
    ensures
        entries_view(r@) == member_entries(ws@, hub_type@),
{
    let fields = hub_type_all_fields(ws, hub_type);
    let roles = hub_type_all_roles(ws, hub_type);
    let ghost fv = fields@.map_values(|f: HubFieldDef| f@);
    let ghost rv = roles@.map_values(|r: HubRoleDef| r@);
    let mut out: Vec<CompletionEntry> = Vec::new();
    let mut k: usize = 0;
    while k < fields.len()
        invariant
            k <= fields.len(),
            fv == fields@.map_values(|f: HubFieldDef| f@),
            entries_view(out@) == fv.take(k as int).map_values(
                |f: FieldView| plain_entry(f.name, ItemKind::Field, "Field"@),
            ),
        decreases fields.len() - k,
    {
        let e = plain(fields[k].name.clone(), ItemKind::Field, owned("Field"));
        let ghost before = entries_view(out@);
        out.push(e);
        assert(entries_view(out@) =~= before.push(e@));
        assert(fv.take(k + 1).map_values(|f: FieldView| plain_entry(f.name, ItemKind::Field, "Field"@))
            =~= fv.take(k as int).map_values(|f: FieldView| plain_entry(f.name, ItemKind::Field, "Field"@)).push(
            plain_entry(fv[k as int].name, ItemKind::Field, "Field"@),
        ));
        k = k + 1;
    }
    assert(fv.take(k as int) =~= fv);
    let ghost mid = entries_view(out@);
    let mut j: usize = 0;
    while j < roles.len()
        invariant
            j <= roles.len(),
            rv == roles@.map_values(|r: HubRoleDef| r@),
            entries_view(out@) == mid + rv.take(j as int).map_values(
                |r: RoleView| plain_entry(r.name, ItemKind::Interface, "Role"@),
            ),
        decreases roles.len() - j,
    {
        let e = plain(roles[j].name.clone(), ItemKind::Interface, owned("Role"));
        let ghost before = entries_view(out@);
        out.push(e);
        assert(entries_view(out@) =~= before.push(e@));
        assert(rv.take(j + 1).map_values(|r: RoleView| plain_entry(r.name, ItemKind::Interface, "Role"@))
            =~= rv.take(j as int).map_values(|r: RoleView| plain_entry(r.name, ItemKind::Interface, "Role"@)).push(
            plain_entry(rv[j as int].name, ItemKind::Interface, "Role"@),
        ));
        j = j + 1;
    }
    assert(rv.take(j as int) =~= rv);
    out
}

/// The items offering every declared field of the workspace, with its type.
pub open spec fn global_field_entries(ws: Seq<crate::model::FileView>) -> Seq<EntryView> {
    all_global_fields_of(ws).map_values(
        |g: GlobalFieldView| plain_entry(g.name, ItemKind::Field, "Global Field ("@ + g.field_type + ")"@),
    )
}

/// Every declared field of the workspace, as items.
pub fn complete_global_fields(ws: &Workspace) -> (r: Vec<CompletionEntry>)
    ensures
        entries_view(r@) == global_field_entries(ws@),
{
    let all = all_global_fields(ws);
    let ghost gv = all@.map_values(|g: GlobalField| g@);
    let mut out: Vec<CompletionEntry> = Vec::new();
    let mut k: usize = 0;
    while k < all.len()
        invariant
            k <= all.len(),
            gv == all@.map_values(|g: GlobalField| g@),
            gv == all_global_fields_of(ws@),
            entries_view(out@) == gv.take(k as int).map_values(
                |g: GlobalFieldView| plain_entry(g.name, ItemKind::Field, "Global Field ("@ + g.field_type + ")"@),
            ),
        decreases all.len() - k,
    {
        let mut detail = owned("Global Field (");
        detail.append(all[k].field_type.as_str());
        detail.append(")");
        let e = plain(all[k].name.clone(), ItemKind::Field, detail);
        let ghost before = entries_view(out@);
        out.push(e);
        assert(entries_view(out@) =~= before.push(e@));
        assert(gv.take(k + 1).map_values(
            |g: GlobalFieldView| plain_entry(g.name, ItemKind::Field, "Global Field ("@ + g.field_type + ")"@),
        ) =~= gv.take(k as int).map_values(
            |g: GlobalFieldView| plain_entry(g.name, ItemKind::Field, "Global Field ("@ + g.field_type + ")"@),
        ).push(plain_entry(gv[k as int].name, ItemKind::Field, "Global Field ("@ + gv[k as int].field_type + ")"@)));
        k = k + 1;
    }
    assert(gv.take(k as int) =~= gv);
    out
}

/// The fields and roles of the type of the instance `id` names, seen from
/// that instance's file; none when the name or the type does not resolve.
pub open spec fn hub_field_entries(ws: Seq<crate::model::FileView>, id: Seq<char>) -> Option<Seq<EntryView>> {
    match spec_resolve_reference(ws, id) {
        Some(inst) => match resolve_type_at(ws, inst.file, inst.instance_type) {
            Some(t) => Some(member_entries(ws, t)),
            None => None,
        },
        None => None,
    }
}

/// The fields and roles of the instance `id` names (see `hub_field_entries`).
pub fn complete_hub_fields(ws: &Workspace, id: &String) -> (r: Option<Vec<CompletionEntry>>)
    ensures
        match r {
            Some(v) => hub_field_entries(ws@, id@) == Some(entries_view(v@)),
            None => hub_field_entries(ws@, id@) is None,
        },
{
    match resolve_reference(ws, id) {
        Some(inst) => match resolve_type_at_path(ws, &inst.file, &inst.instance_type) {
            Some(t) => Some(complete_fields_and_roles(ws, &t)),
            None => None,
        },
        None => None,
    }
}

/// The first role of `rs` named `name`.
pub open spec fn first_role_named(rs: Seq<RoleView>, name: Seq<char>) -> Option<RoleView>
    decreases rs.len(),
{
    if rs.len() == 0 {
        None
    } else if rs[0].name == name {
        Some(rs[0])
    } else {
        first_role_named(rs.drop_first(), name)
    }
}

/// An instance may fill a role allowing `allowed`: its type (seen from its
/// file) is allowed, with what it extends; an instance whose type does not
/// resolve fits when its type is listed.
pub open spec fn fits_role(ws: Seq<crate::model::FileView>, inst: InstanceView, allowed: Seq<Seq<char>>) -> bool {
    match resolve_type_at(ws, inst.file, inst.instance_type) {
        Some(t) => spec_allows(all_types_of(ws), t, allowed),
        None => allowed.contains(inst.instance_type),
    }
}

/// The items offering the instances of `insts` that fit a role allowing
/// `allowed`, in order.
pub open spec fn fitting_entries(
    ws: Seq<crate::model::FileView>,
    insts: Seq<InstanceView>,
    allowed: Seq<Seq<char>>,
) -> Seq<EntryView>
    decreases insts.len(),
{
    if insts.len() == 0 {
        Seq::empty()
    } else {
        fitting_entries(ws, insts.drop_last(), allowed) + if fits_role(ws, insts.last(), allowed) {
            seq![instance_entry(ws, insts.last())]
        } else {
            Seq::empty()
        }
    }
}

/// The instances that may fill the role `role_name` of the type
/// `hub_type` seen from the file with path `path`; none when the type or
/// the role does not resolve.
pub open spec fn role_instance_entries(
    ws: Seq<crate::model::FileView>,
    path: Seq<char>,
    hub_type: Seq<char>,
    role_name: Seq<char>,
) -> Seq<EntryView> {
    match resolve_type_at(ws, path, hub_type) {
        Some(t) => match first_role_named(t.roles, role_name) {
            Some(role) => fitting_entries(ws, all_instances_of(ws), role.allowed_types),
            None => Seq::empty(),
        },
        None => Seq::empty(),
    }
}

pub(crate) fn role_index(roles: &Vec<HubRoleDef>, name: &String) -> (r: Option<usize>)
    ensures
        match r {
            Some(i) => i < roles.len() && first_role_named(roles@.map_values(|x: HubRoleDef| x@), name@) == Some(
                roles@[i as int]@,
            ),
            None => first_role_named(roles@.map_values(|x: HubRoleDef| x@), name@) is None,
        },
{
    let ghost rv = roles@.map_values(|x: HubRoleDef| x@);
    let mut i: usize = 0;
    assert(rv.skip(0) =~= rv);
    while i < roles.len()
        invariant
            i <= roles.len(),
            rv == roles@.map_values(|x: HubRoleDef| x@),
            first_role_named(rv, name@) == first_role_named(rv.skip(i as int), name@),
        decreases roles.len() - i,
    {
        assert(rv.skip(i as int).drop_first() =~= rv.skip(i + 1));
        assert(rv.skip(i as int)[0] == roles@[i as int]@);
        if roles[i].name == *name {
            return Some(i);
        }
        i = i + 1;
    }
    None
}

/// The instances that may fill a role (see `role_instance_entries`).
pub fn complete_role_instances(ws: &Workspace, path: &String, hub_type: &String, role_name: &String) -> (r: Vec<
    CompletionEntry,
>)
    ensures
        entries_view(r@) == role_instance_entries(ws@, path@, hub_type@, role_name@),
{
    let t = match resolve_type_at_path(ws, path, hub_type) {
        Some(t) => t,
        None => return Vec::new(),
    };
    let ri = match role_index(&t.roles, role_name) {
        Some(i) => i,
        None => return Vec::new(),
    };
    let allowed = &t.roles[ri].allowed_types;
    let ghost av = strings_view(allowed@);
    assert(av == t@.roles[ri as int].allowed_types);
    let all = all_hub_instances(ws);
    let ghost iv = all@.map_values(|i: HubInstance| i@);
    let mut out: Vec<CompletionEntry> = Vec::new();
    let mut k: usize = 0;
    assert(iv.take(0) =~= Seq::<InstanceView>::empty());
    while k < all.len()
        invariant
            k <= all.len(),
            iv == all@.map_values(|i: HubInstance| i@),
            iv == all_instances_of(ws@),
            av == strings_view(allowed@),
            entries_view(out@) == fitting_entries(ws@, iv.take(k as int), av),
        decreases all.len() - k,
    {
        let inst = &all[k];
        assert(iv[k as int] == inst@);
        let fits = match resolve_type_at_path(ws, &inst.file, &inst.instance_type) {
            Some(it) => hub_type_allows(ws, &it, allowed.as_slice()),
            None => contains_name(allowed.as_slice(), &inst.instance_type),
        };
        let ghost before = entries_view(out@);
        if fits {
            let e = instance_completion_item(ws, inst);
            out.push(e);
            assert(entries_view(out@) =~= before.push(e@));
        }
        assert(iv.take(k + 1).drop_last() =~= iv.take(k as int));
        assert(iv.take(k + 1).last() == inst@);
        assert(entries_view(out@) =~= fitting_entries(ws@, iv.take(k + 1), av));
        k = k + 1;
    }
    assert(iv.take(k as int) =~= iv);
    out
}

// ---------- TWXML tags ----------

/// Every TWXML tag with the kind of item it is offered as and its
/// description, in the order they are offered.
pub open spec fn tag_table() -> Seq<(Seq<char>, ItemKind, Seq<char>)> {
    seq![
        ("document"@, ItemKind::Class, "TWXML Document"@),
        ("body"@, ItemKind::Class, "Body Block"@),
        ("meta"@, ItemKind::Class, "Meta Tag"@),
        ("section"@, ItemKind::Class, "Section"@),
        ("heading"@, ItemKind::Class, "Heading"@),
        ("paragraph"@, ItemKind::Class, "Paragraph"@),
        ("aside"@, ItemKind::Class, "Aside"@),
        ("blockquote"@, ItemKind::Class, "Blockquote"@),
        ("codeblock"@, ItemKind::Class, "Code Block"@),
        ("ul"@, ItemKind::Class, "Unordered List"@),
        ("ol"@, ItemKind::Class, "Ordered List"@),
        ("li"@, ItemKind::Class, "List Item"@),
        ("dl"@, ItemKind::Class, "Definition List"@),
        ("dt"@, ItemKind::Class, "Definition Term"@),
        ("dd"@, ItemKind::Class, "Definition Description"@),
        ("details"@, ItemKind::Class, "Details"@),
        ("summary"@, ItemKind::Class, "Summary"@),
        ("table"@, ItemKind::Class, "Table"@),
        ("tr"@, ItemKind::Class, "Table Row"@),
        ("th"@, ItemKind::Class, "Table Header"@),
        ("td"@, ItemKind::Class, "Table Cell"@),
        ("hubref"@, ItemKind::Reference, "Hub Reference"@),
        ("link"@, ItemKind::Reference, "Link"@),
        ("image"@, ItemKind::Value, "Image"@),
        ("audio"@, ItemKind::Value, "Audio"@),
        ("video"@, ItemKind::Value, "Video"@),
        ("code"@, ItemKind::Value, "Inline Code"@),
        ("bold"@, ItemKind::Value, "Bold"@),
        ("italic"@, ItemKind::Value, "Italic"@),
        ("underline"@, ItemKind::Value, "Underline"@),
        ("strikethrough"@, ItemKind::Value, "Strikethrough"@),
        ("super"@, ItemKind::Value, "Superscript"@),
        ("sub"@, ItemKind::Value, "Subscript"@),
        ("br"@, ItemKind::Value, "Line Break"@),
        ("hr"@, ItemKind::Value, "Horizontal Rule"@),
        ("fr"@, ItemKind::Reference, "Footnote Reference"@),
        ("footnote"@, ItemKind::Class, "Footnote"@),
        ("review"@, ItemKind::Class, "Review"@),
        ("include"@, ItemKind::Value, "Include"@)
    ]
}

fn tag_info(name: &str, kind: ItemKind, detail: &str) -> (r: (String, ItemKind, String))
    ensures
        r.0@ == name@,
        r.1 == kind,
        r.2@ == detail@,
{
    (owned(name), kind, owned(detail))
}

/// The views of a table of tags.
pub open spec fn tag_rows_view(s: Seq<(String, ItemKind, String)>) -> Seq<(Seq<char>, ItemKind, Seq<char>)> {
    s.map_values(|r: (String, ItemKind, String)| (r.0@, r.1, r.2@))
}

/// The table of TWXML tags (see `tag_table`).
#[verifier::rlimit(40)]
pub fn twxml_tag_table() -> (r: Vec<(String, ItemKind, String)>)
    ensures
        tag_rows_view(r@) == tag_table(),
{
    let mut t: Vec<(String, ItemKind, String)> = Vec::new();
    t.push(tag_info("document", ItemKind::Class, "TWXML Document"));
    t.push(tag_info("body", ItemKind::Class, "Body Block"));
    t.push(tag_info("meta", ItemKind::Class, "Meta Tag"));
    t.push(tag_info("section", ItemKind::Class, "Section"));
    t.push(tag_info("heading", ItemKind::Class, "Heading"));
    t.push(tag_info("paragraph", ItemKind::Class, "Paragraph"));
    t.push(tag_info("aside", ItemKind::Class, "Aside"));
    t.push(tag_info("blockquote", ItemKind::Class, "Blockquote"));
    t.push(tag_info("codeblock", ItemKind::Class, "Code Block"));
    t.push(tag_info("ul", ItemKind::Class, "Unordered List"));
    t.push(tag_info("ol", ItemKind::Class, "Ordered List"));
    t.push(tag_info("li", ItemKind::Class, "List Item"));
    t.push(tag_info("dl", ItemKind::Class, "Definition List"));
    t.push(tag_info("dt", ItemKind::Class, "Definition Term"));
    t.push(tag_info("dd", ItemKind::Class, "Definition Description"));
    t.push(tag_info("details", ItemKind::Class, "Details"));
    t.push(tag_info("summary", ItemKind::Class, "Summary"));
    t.push(tag_info("table", ItemKind::Class, "Table"));
    t.push(tag_info("tr", ItemKind::Class, "Table Row"));
    t.push(tag_info("th", ItemKind::Class, "Table Header"));
    t.push(tag_info("td", ItemKind::Class, "Table Cell"));
    t.push(tag_info("hubref", ItemKind::Reference, "Hub Reference"));
    t.push(tag_info("link", ItemKind::Reference, "Link"));
    t.push(tag_info("image", ItemKind::Value, "Image"));
    t.push(tag_info("audio", ItemKind::Value, "Audio"));
    t.push(tag_info("video", ItemKind::Value, "Video"));
    t.push(tag_info("code", ItemKind::Value, "Inline Code"));
    t.push(tag_info("bold", ItemKind::Value, "Bold"));
    t.push(tag_info("italic", ItemKind::Value, "Italic"));
    t.push(tag_info("underline", ItemKind::Value, "Underline"));
    t.push(tag_info("strikethrough", ItemKind::Value, "Strikethrough"));
    t.push(tag_info("super", ItemKind::Value, "Superscript"));
    t.push(tag_info("sub", ItemKind::Value, "Subscript"));
    t.push(tag_info("br", ItemKind::Value, "Line Break"));
    t.push(tag_info("hr", ItemKind::Value, "Horizontal Rule"));
    t.push(tag_info("fr", ItemKind::Reference, "Footnote Reference"));
    t.push(tag_info("footnote", ItemKind::Class, "Footnote"));
    t.push(tag_info("review", ItemKind::Class, "Review"));
    t.push(tag_info("include", ItemKind::Value, "Include"));
    assert(tag_rows_view(t@) =~= tag_table());
    t
}

/// A tag is offered inside `parent`: `document` only where there is no
/// parent, and `body` not inside `body`.
pub open spec fn tag_offered(name: Seq<char>, parent: Option<Seq<char>>) -> bool {
    !(parent is Some && name == "document"@) && !(parent == Some("body"@) && name == "body"@)
}

/// The items offering the tags of `rows` that fit inside `parent`, in order.
pub open spec fn tag_entries_of(rows: Seq<(Seq<char>, ItemKind, Seq<char>)>, parent: Option<Seq<char>>) -> Seq<EntryView>
    decreases rows.len(),
{
    if rows.len() == 0 {
        Seq::empty()
    } else {
        tag_entries_of(rows.drop_last(), parent) + if tag_offered(rows.last().0, parent) {
            seq![plain_entry(rows.last().0, rows.last().1, rows.last().2)]
        } else {
            Seq::empty()
        }
    }
}

/// The labels of the tag table are exactly the TWXML tag names.
proof fn lemma_tag_table_names()
    ensures
        forall|j: int| 0 <= j < tag_table().len() ==> crate::twxml_rules::is_twxml_tag_name(#[trigger] tag_table()[j].0),
        forall|name: Seq<char>|
            crate::twxml_rules::is_twxml_tag_name(name) ==> exists|j: int|
                0 <= j < tag_table().len() && #[trigger] tag_table()[j].0 == name,
{
    let t = tag_table();
    assert(t.len() == 39);
    assert(t[0].0 == "document"@);
    assert(t[1].0 == "body"@);
    assert(t[2].0 == "meta"@);
    assert(t[3].0 == "section"@);
    assert(t[4].0 == "heading"@);
    assert(t[5].0 == "paragraph"@);
    assert(t[6].0 == "aside"@);
    assert(t[7].0 == "blockquote"@);
    assert(t[8].0 == "codeblock"@);
    assert(t[9].0 == "ul"@);
    assert(t[10].0 == "ol"@);
    assert(t[11].0 == "li"@);
    assert(t[12].0 == "dl"@);
    assert(t[13].0 == "dt"@);
    assert(t[14].0 == "dd"@);
    assert(t[15].0 == "details"@);
    assert(t[16].0 == "summary"@);
    assert(t[17].0 == "table"@);
    assert(t[18].0 == "tr"@);
    assert(t[19].0 == "th"@);
    assert(t[20].0 == "td"@);
    assert(t[21].0 == "hubref"@);
    assert(t[22].0 == "link"@);
    assert(t[23].0 == "image"@);
    assert(t[24].0 == "audio"@);
    assert(t[25].0 == "video"@);
    assert(t[26].0 == "code"@);
    assert(t[27].0 == "bold"@);
    assert(t[28].0 == "italic"@);
    assert(t[29].0 == "underline"@);
    assert(t[30].0 == "strikethrough"@);
    assert(t[31].0 == "super"@);
    assert(t[32].0 == "sub"@);
    assert(t[33].0 == "br"@);
    assert(t[34].0 == "hr"@);
    assert(t[35].0 == "fr"@);
    assert(t[36].0 == "footnote"@);
    assert(t[37].0 == "review"@);
    assert(t[38].0 == "include"@);
    assert forall|j: int| 0 <= j < t.len() implies crate::twxml_rules::is_twxml_tag_name(#[trigger] t[j].0) by {
        if j == 0 {
        } else if j == 1 {
        } else if j == 2 {
        } else if j == 3 {
        } else if j == 4 {
        } else if j == 5 {
        } else if j == 6 {
        } else if j == 7 {
        } else if j == 8 {
        } else if j == 9 {
        } else if j == 10 {
        } else if j == 11 {
        } else if j == 12 {
        } else if j == 13 {
        } else if j == 14 {
        } else if j == 15 {
        } else if j == 16 {
        } else if j == 17 {
        } else if j == 18 {
        } else if j == 19 {
        } else if j == 20 {
        } else if j == 21 {
        } else if j == 22 {
        } else if j == 23 {
        } else if j == 24 {
        } else if j == 25 {
        } else if j == 26 {
        } else if j == 27 {
        } else if j == 28 {
        } else if j == 29 {
        } else if j == 30 {
        } else if j == 31 {
        } else if j == 32 {
        } else if j == 33 {
        } else if j == 34 {
        } else if j == 35 {
        } else if j == 36 {
        } else if j == 37 {
        } else if j == 38 {
        }
    }
    assert forall|name: Seq<char>| crate::twxml_rules::is_twxml_tag_name(name) implies exists|j: int|
        0 <= j < t.len() && #[trigger] t[j].0 == name by {
        if name == "document"@ {
            assert(t[0].0 == name);
        } else if name == "body"@ {
            assert(t[1].0 == name);
        } else if name == "meta"@ {
            assert(t[2].0 == name);
        } else if name == "section"@ {
            assert(t[3].0 == name);
        } else if name == "heading"@ {
            assert(t[4].0 == name);
        } else if name == "paragraph"@ {
            assert(t[5].0 == name);
        } else if name == "aside"@ {
            assert(t[6].0 == name);
        } else if name == "blockquote"@ {
            assert(t[7].0 == name);
        } else if name == "codeblock"@ {
            assert(t[8].0 == name);
        } else if name == "ul"@ {
            assert(t[9].0 == name);
        } else if name == "ol"@ {
            assert(t[10].0 == name);
        } else if name == "li"@ {
            assert(t[11].0 == name);
        } else if name == "dl"@ {
            assert(t[12].0 == name);
        } else if name == "dt"@ {
            assert(t[13].0 == name);
        } else if name == "dd"@ {
            assert(t[14].0 == name);
        } else if name == "details"@ {
            assert(t[15].0 == name);
        } else if name == "summary"@ {
            assert(t[16].0 == name);
        } else if name == "table"@ {
            assert(t[17].0 == name);
        } else if name == "tr"@ {
            assert(t[18].0 == name);
        } else if name == "th"@ {
            assert(t[19].0 == name);
        } else if name == "td"@ {
            assert(t[20].0 == name);
        } else if name == "hubref"@ {
            assert(t[21].0 == name);
        } else if name == "link"@ {
            assert(t[22].0 == name);
        } else if name == "image"@ {
            assert(t[23].0 == name);
        } else if name == "audio"@ {
            assert(t[24].0 == name);
        } else if name == "video"@ {
            assert(t[25].0 == name);
        } else if name == "code"@ {
            assert(t[26].0 == name);
        } else if name == "bold"@ {
            assert(t[27].0 == name);
        } else if name == "italic"@ {
            assert(t[28].0 == name);
        } else if name == "underline"@ {
            assert(t[29].0 == name);
        } else if name == "strikethrough"@ {
            assert(t[30].0 == name);
        } else if name == "super"@ {
            assert(t[31].0 == name);
        } else if name == "sub"@ {
            assert(t[32].0 == name);
        } else if name == "br"@ {
            assert(t[33].0 == name);
        } else if name == "hr"@ {
            assert(t[34].0 == name);
        } else if name == "fr"@ {
            assert(t[35].0 == name);
        } else if name == "footnote"@ {
            assert(t[36].0 == name);
        } else if name == "review"@ {
            assert(t[37].0 == name);
        } else if name == "include"@ {
            assert(t[38].0 == name);
        }
    }
}

/// The items of `tag_entries_of` are the rows whose tags are offered.
proof fn lemma_tag_entries(rows: Seq<(Seq<char>, ItemKind, Seq<char>)>, parent: Option<Seq<char>>)
    ensures
        forall|i: int|
            0 <= i < tag_entries_of(rows, parent).len() ==> exists|j: int|
                0 <= j < rows.len() && #[trigger] rows[j].0 == #[trigger] tag_entries_of(rows, parent)[i].label,
        forall|j: int|
            0 <= j < rows.len() && tag_offered(#[trigger] rows[j].0, parent) ==> exists|i: int|
                0 <= i < tag_entries_of(rows, parent).len() && #[trigger] tag_entries_of(rows, parent)[i].label
                    == rows[j].0,
    decreases rows.len(),
{
    if rows.len() > 0 {
        let d = rows.drop_last();
        lemma_tag_entries(d, parent);
        let e0 = tag_entries_of(d, parent);
        let e = tag_entries_of(rows, parent);
        assert forall|i: int| 0 <= i < e.len() implies exists|j: int|
            0 <= j < rows.len() && #[trigger] rows[j].0 == #[trigger] e[i].label by {
            if i < e0.len() {
                assert(e[i] == e0[i]);
                let j = choose|j: int| 0 <= j < d.len() && #[trigger] d[j].0 == e0[i].label;
                assert(rows[j] == d[j]);
            } else {
                assert(e[i].label == rows[rows.len() - 1].0);
            }
        }
        assert forall|j: int| 0 <= j < rows.len() && tag_offered(#[trigger] rows[j].0, parent) implies exists|i: int|
            0 <= i < e.len() && #[trigger] e[i].label == rows[j].0 by {
            if j < d.len() {
                assert(rows[j] == d[j]);
                let i = choose|i: int| 0 <= i < e0.len() && #[trigger] e0[i].label == d[j].0;
                assert(e[i] == e0[i]);
            } else {
                assert(e[e0.len() as int].label == rows[j].0);
            }
        }
    }
}

/// TWXML tag completion offers only TWXML tags, and every TWXML tag that
/// fits: all of them, except `document` inside another tag and `body`
/// inside `body`.
pub proof fn law_tag_completion(parent: Option<Seq<char>>)
    ensures
        forall|i: int|
            0 <= i < tag_entries_of(tag_table(), parent).len() ==> crate::twxml_rules::is_twxml_tag_name(
                #[trigger] tag_entries_of(tag_table(), parent)[i].label,
            ),
        forall|name: Seq<char>|
            crate::twxml_rules::is_twxml_tag_name(name) && !(parent is Some && name == "document"@) && !(parent
                == Some("body"@) && name == "body"@) ==> exists|i: int|
                0 <= i < tag_entries_of(tag_table(), parent).len() && #[trigger] tag_entries_of(tag_table(), parent)[i].label
                    == name,
{
    lemma_tag_table_names();
    lemma_tag_entries(tag_table(), parent);
    let t = tag_table();
    let e = tag_entries_of(t, parent);
    assert forall|i: int| 0 <= i < e.len() implies crate::twxml_rules::is_twxml_tag_name(#[trigger] e[i].label) by {
        let j = choose|j: int| 0 <= j < t.len() && #[trigger] t[j].0 == e[i].label;
        assert(crate::twxml_rules::is_twxml_tag_name(t[j].0));
    }
    assert forall|name: Seq<char>|
        crate::twxml_rules::is_twxml_tag_name(name) && !(parent is Some && name == "document"@) && !(parent
            == Some("body"@) && name == "body"@) implies exists|i: int| 0 <= i < e.len() && #[trigger] e[i].label == name by {
        let j = choose|j: int| 0 <= j < t.len() && #[trigger] t[j].0 == name;
        assert(tag_offered(t[j].0, parent));
    }
}

/// The TWXML tags offered inside `parent`.
pub fn complete_twxml_tags(parent: &Option<String>) -> (r: Vec<CompletionEntry>)
    ensures
        entries_view(r@) == tag_entries_of(tag_table(), opt_view(*parent)),
{
    let table = twxml_tag_table();
    let ghost tv = tag_rows_view(table@);
    let ghost pv = opt_view(*parent);
    let mut out: Vec<CompletionEntry> = Vec::new();
    let mut k: usize = 0;
    assert(tv.take(0) =~= Seq::<(Seq<char>, ItemKind, Seq<char>)>::empty());
    while k < table.len()
        invariant
            k <= table.len(),
            tv == tag_rows_view(table@),
            pv == opt_view(*parent),
            entries_view(out@) == tag_entries_of(tv.take(k as int), pv),
        decreases table.len() - k,
    {
        let row = &table[k];
        assert(tv[k as int] == (row.0@, row.1, row.2@));
        let skip_doc = parent.is_some() && str_eq(row.0.as_str(), "document");
        let skip_body = match parent {
            Some(p) => str_eq(p.as_str(), "body") && str_eq(row.0.as_str(), "body"),
            None => false,
        };
        let ghost before = entries_view(out@);
        if !skip_doc && !skip_body {
            let e = plain(row.0.clone(), row.1, row.2.clone());
            out.push(e);
            assert(entries_view(out@) =~= before.push(e@));
        }
        assert(tv.take(k + 1).drop_last() =~= tv.take(k as int));
        assert(tv.take(k + 1).last() == tv[k as int]);
        assert(entries_view(out@) =~= tag_entries_of(tv.take(k + 1), pv));
        k = k + 1;
    }
    assert(tv.take(k as int) =~= tv);
    out
}

// ---------- choosing by context ----------

/// Which generated UUIDs a completion offers besides its items.
#[derive(Clone, Copy, Debug, PartialEq, Eq, Structural)]
pub enum OfferUuid {
    /// A HubGS reference UUID.
    Ref,
    V4,
    V7,
    /// A version 4 UUID and a reference UUID.
    Both,
    Nothing,
}

/// The items for a TWXML completion context, and the UUIDs to offer with
/// them; none when the context calls for nothing.
pub open spec fn twxml_items(ws: Seq<crate::model::FileView>, ctx: crate::twxml_tree::TwxmlContextView) -> Option<
    (Seq<EntryView>, OfferUuid),
> {
    match ctx {
        crate::twxml_tree::TwxmlContextView::HubrefId => Some((all_instance_entries(ws), OfferUuid::Ref)),
        crate::twxml_tree::TwxmlContextView::HubrefField(id) => match hub_field_entries(ws, id) {
            Some(e) => Some((e, OfferUuid::Nothing)),
            None => None,
        },
        crate::twxml_tree::TwxmlContextView::Tag(parent) => Some(
            (tag_entries_of(tag_table(), parent), OfferUuid::Nothing),
        ),
        crate::twxml_tree::TwxmlContextView::Nothing => None,
    }
}

/// The items for a position of a TWXML document (see `twxml_items`).
pub fn handle_twxml_completion(ws: &Workspace, contents: &str, pos: LspPosition, root: &SyntaxNode) -> (r: Option<
    (Vec<CompletionEntry>, OfferUuid),
>)
    requires
        crate::twxml_tree::cursor_between_chars(contents@, pos),
    ensures
        match r {
            Some((v, o)) => twxml_items(
                ws@,
                crate::twxml_tree::twxml_context(contents@, pos, descent_path(root@, pos)),
            ) == Some((entries_view(v@), o)),
            None => twxml_items(ws@, crate::twxml_tree::twxml_context(contents@, pos, descent_path(root@, pos))) is None,
        },
{
    match crate::twxml_tree::get_twxml_completion_context(contents, pos, root) {
        crate::twxml_tree::TwxmlCompletionContext::HubrefId => Some((complete_hubref_id_instances(ws), OfferUuid::Ref)),
        crate::twxml_tree::TwxmlCompletionContext::HubrefField { id_val } => match complete_hub_fields(ws, &id_val) {
            Some(v) => Some((v, OfferUuid::Nothing)),
            None => None,
        },
        crate::twxml_tree::TwxmlCompletionContext::Tag { parent } => Some((complete_twxml_tags(&parent), OfferUuid::Nothing)),
        crate::twxml_tree::TwxmlCompletionContext::Nothing => None,
    }
}

/// The items for the descent path `path` of a HubGS document with path
/// `file`: types after `ALLOWS`; on an assignment, the instances that may
/// fill the role (with a reference UUID); else the fields and roles of the
/// hub type in force; else, inside a hub definition, the declared fields;
/// none otherwise.
pub open spec fn hubgs_items(ws: Seq<crate::model::FileView>, file: Seq<char>, path: Seq<crate::syntax::NodeView>) -> Option<
    (Seq<EntryView>, OfferUuid),
> {
    let in_definition = if has_hub_definition(path) {
        Some((global_field_entries(ws), OfferUuid::Nothing))
    } else {
        None
    };
    match hubgs_context(path) {
        HubgsContextView::AllowsList => Some((type_entries(ws), OfferUuid::Nothing)),
        HubgsContextView::InstanceAssignment { hub_type, role_name } => Some(
            (role_instance_entries(ws, file, hub_type, role_name), OfferUuid::Ref),
        ),
        HubgsContextView::Nothing => match hub_type_up(path, path.len() as int) {
            Some(tn) => match resolve_type_at(ws, file, tn) {
                Some(t) => Some((member_entries(ws, t), OfferUuid::Nothing)),
                None => in_definition,
            },
            None => in_definition,
        },
    }
}

/// The items for a position of the HubGS document with path `file` whose
/// tree is `root` (see `hubgs_items`).
pub fn handle_hubgs_completion(ws: &Workspace, file: &String, pos: LspPosition, root: &SyntaxNode) -> (r: Option<
    (Vec<CompletionEntry>, OfferUuid),
>)
    ensures
        match r {
            Some((v, o)) => hubgs_items(ws@, file@, descent_path(root@, pos)) == Some((entries_view(v@), o)),
            None => hubgs_items(ws@, file@, descent_path(root@, pos)) is None,
        },
{
    match get_hubgs_completion_context(root, pos) {
        HubgsCompletionContext::AllowsList => {
            return Some((complete_allows_list(ws), OfferUuid::Nothing));
        },
        HubgsCompletionContext::InstanceAssignment { hub_type, role_name } => {
            return Some((complete_role_instances(ws, file, &hub_type, &role_name), OfferUuid::Ref));
        },
        HubgsCompletionContext::Nothing => {},
    }
    match get_hub_type_at_position(root, pos) {
        Some(tn) => match resolve_type_at_path(ws, file, &tn) {
            Some(t) => {
                return Some((complete_fields_and_roles(ws, &t), OfferUuid::Nothing));
            },
            None => {},
        },
        None => {},
    }
    if is_in_hub_definition(root, pos) {
        Some((complete_global_fields(ws), OfferUuid::Nothing))
    } else {
        None
    }
}

// ---------- generated UUIDs ----------

/// A version 4 UUID as the generator gives one.
pub open spec fn v4_text(t: Seq<char>) -> bool {
    exists|b: Option<u128>|
        t == crate::uuid::uuid_text(crate::uuid::v4_bytes(crate::uuid::lcg_bytes(crate::uuid::seed_of(b), 16)))
}

/// A version 7 UUID (also a reference UUID) as the generator gives one.
pub open spec fn v7_text(t: Seq<char>) -> bool {
    exists|a: Option<u128>, b: Option<u128>|
        t == crate::uuid::uuid_text(
            crate::uuid::v7_bytes(crate::uuid::millis_of(a), crate::uuid::lcg_bytes(crate::uuid::seed_of(b), 10)),
        )
}

/// A version 4 UUID made from the bytes `e` read from the operating
/// system's random source: from bytes 10 to 26 when there are at least 36
/// of them, else as the generator gives one.
pub open spec fn v4_text_from(e: Seq<u8>, t: Seq<char>) -> bool {
    if e.len() >= 36 {
        t == crate::uuid::uuid_text(crate::uuid::v4_bytes(e.subrange(10, 26)))
    } else {
        v4_text(t)
    }
}

/// A version 7 UUID made from the bytes `e` read from the operating
/// system's random source: the current time and bytes `lo` to `lo + 10`
/// when there are at least 36 of them, else as the generator gives one.
pub open spec fn v7_text_from(e: Seq<u8>, lo: int, t: Seq<char>) -> bool {
    if e.len() >= 36 {
        exists|a: Option<u128>|
            t == crate::uuid::uuid_text(crate::uuid::v7_bytes(crate::uuid::millis_of(a), e.subrange(lo, lo + 10)))
    } else {
        v7_text(t)
    }
}

/// A reference, a version 4 and a version 7 UUID from the random bytes `e`
/// (see `v4_text_from` and `v7_text_from`): the reference UUID takes bytes
/// 0 to 10, the version 7 UUID bytes 26 to 36.
fn uuids_from(e: &Vec<u8>) -> (r: (String, String, String))
    ensures
        v7_text_from(e@, 0, r.0@),
        v4_text_from(e@, r.1@),
        v7_text_from(e@, 26, r.2@),
{
    if e.len() >= 36 {
        let ms = crate::uuid::now_millis();
        let rf = crate::uuid::uuid_v7_from_parts(ms, &crate::uuid::byte_range(e, 0, 10));
        let v4 = crate::uuid::uuid_v4_from_random(&crate::uuid::byte_range(e, 10, 26));
        let v7 = crate::uuid::uuid_v7_from_parts(ms, &crate::uuid::byte_range(e, 26, 36));
        (rf, v4, v7)
    } else {
        (crate::uuid::generate_uuid_ref(), crate::uuid::generate_uuid_v4(), crate::uuid::generate_uuid_v7())
    }
}

/// An item inserting a generated UUID.
pub open spec fn uuid_entry(label: Seq<char>, detail: Seq<char>, text: Seq<char>) -> EntryView {
    EntryView { label, kind: ItemKind::Snippet, detail, insert_text: Some(text), filter_text: None, edit: None }
}

/// The items for the UUIDs `offer` asks for, given the reference, version 4
/// and version 7 UUIDs to insert.
pub open spec fn uuid_entries(offer: OfferUuid, rf: Seq<char>, v4: Seq<char>, v7: Seq<char>) -> Seq<EntryView> {
    let ref_item = uuid_entry("uuid-ref"@, "Insert a valid HubGS ref UUID (prefixed, no hyphens)"@, rf);
    let v4_item = uuid_entry("uuid-v4"@, "Insert a new standard UUID v4"@, v4);
    match offer {
        OfferUuid::Ref => seq![ref_item],
        OfferUuid::V4 => seq![v4_item],
        OfferUuid::V7 => seq![uuid_entry("uuid-v7"@, "Insert a new standard UUID v7"@, v7)],
        OfferUuid::Both => seq![v4_item, ref_item],
        OfferUuid::Nothing => Seq::empty(),
    }
}

fn uuid_item(label: &str, detail: &str, text: String) -> (r: CompletionEntry)
    ensures
        r@ == uuid_entry(label@, detail@, text@),
{
    CompletionEntry {
        label: owned(label),
        kind: ItemKind::Snippet,
        detail: owned(detail),
        insert_text: Some(text),
        filter_text: None,
        edit: None,
    }
}

/// `items` followed by the generated UUIDs `offer` asks for.
pub fn apply_uuid_filter(items: Vec<CompletionEntry>, offer: OfferUuid) -> (r: Vec<CompletionEntry>)
    ensures
        exists|rf: Seq<char>, v4: Seq<char>, v7: Seq<char>|
            v7_text(rf) && v4_text(v4) && v7_text(v7) && entries_view(r@) == entries_view(items@) + #[trigger] uuid_entries(
                offer,
                rf,
                v4,
                v7,
            ),
{
    let none: Vec<u8> = Vec::new();
    apply_uuid_filter_from(items, offer, &none)
}

/// `items` followed by the UUIDs `offer` asks for, made from the random
/// bytes `entropy` (see `v4_text_from` and `v7_text_from`).
pub fn apply_uuid_filter_from(items: Vec<CompletionEntry>, offer: OfferUuid, entropy: &Vec<u8>) -> (r: Vec<
    CompletionEntry,
>)
    ensures
        exists|rf: Seq<char>, v4: Seq<char>, v7: Seq<char>|
            v7_text_from(entropy@, 0, rf) && v4_text_from(entropy@, v4) && v7_text_from(entropy@, 26, v7) && entries_view(
                r@,
            ) == entries_view(items@) + #[trigger] uuid_entries(offer, rf, v4, v7),
{
    let mut items = items;
    let ghost base = entries_view(items@);
    let (rf, v4, v7) = uuids_from(entropy);
    let ghost (rv, v4v, v7v) = (rf@, v4@, v7@);
    match offer {
        OfferUuid::Ref => {
            items.push(uuid_item("uuid-ref", "Insert a valid HubGS ref UUID (prefixed, no hyphens)", rf));
        },
        OfferUuid::V4 => {
            items.push(uuid_item("uuid-v4", "Insert a new standard UUID v4", v4));
        },
        OfferUuid::V7 => {
            items.push(uuid_item("uuid-v7", "Insert a new standard UUID v7", v7));
        },
        OfferUuid::Both => {
            items.push(uuid_item("uuid-v4", "Insert a new standard UUID v4", v4));
            items.push(uuid_item("uuid-ref", "Insert a valid HubGS ref UUID (prefixed, no hyphens)", rf));
        },
        OfferUuid::Nothing => {},
    }
    assert(entries_view(items@) =~= base + uuid_entries(offer, rv, v4v, v7v));
    items
}

// ---------- UUIDs after a slash ----------

/// The index of the last `/` of `s`.
pub open spec fn last_slash(s: Seq<char>) -> Option<int>
    decreases s.len(),
{
    if s.len() == 0 {
        None
    } else if s.last() == '/' {
        Some(s.len() - 1)
    } else {
        last_slash(s.drop_last())
    }
}

/// When the text before the cursor ends with `/` and a word, the byte
/// offset of that `/` in its line.
#[verifier::opaque]
pub open spec fn slash_offset(s: Seq<char>, pos: LspPosition) -> Option<nat> {
    match crate::twxml_tree::text_before_cursor(s, pos) {
        Some(before) => match last_slash(before) {
            Some(k) => if forall|j: int| k < j < before.len() ==> crate::twxml_tree::is_name_char(#[trigger] before[j]) {
                Some(crate::twxml_tree::byte_count(before.take(k)))
            } else {
                None
            },
            None => None,
        },
        None => None,
    }
}

/// The two UUID items offered after a slash: each replaces the slash and
/// the word after it, up to the cursor, with a new UUID.
pub open spec fn slash_entries(range: LspRange, v4: Seq<char>, v7: Seq<char>) -> Seq<EntryView> {
    seq![
        EntryView {
            label: "uuid_v4"@,
            kind: ItemKind::Snippet,
            detail: "Generate a new UUID v4"@,
            insert_text: Some(v4),
            filter_text: Some("/uuid_v4"@),
            edit: Some((range, v4)),
        },
        EntryView {
            label: "uuid_v7"@,
            kind: ItemKind::Snippet,
            detail: "Generate a new UUID v7"@,
            insert_text: Some(v7),
            filter_text: Some("/uuid_v7"@),
            edit: Some((range, v7)),
        },
    ]
}

/// The range from the slash at byte offset `start` of the cursor's line to
/// the cursor.
pub open spec fn slash_range(pos: LspPosition, start: nat) -> LspRange {
    LspRange { start: LspPosition { line: pos.line, character: start as u32 }, end: pos }
}

fn slash_item(label: &str, detail: &str, filter: &str, range: LspRange, text: String) -> (r: CompletionEntry)
    ensures
        r@ == (EntryView {
            label: label@,
            kind: ItemKind::Snippet,
            detail: detail@,
            insert_text: Some(text@),
            filter_text: Some(filter@),
            edit: Some((range, text@)),
        }),
{
    let edit_text = text.clone();
    CompletionEntry {
        label: owned(label),
        kind: ItemKind::Snippet,
        detail: owned(detail),
        insert_text: Some(text),
        filter_text: Some(owned(filter)),
        edit: Some(ReplaceEdit { range, new_text: edit_text }),
    }
}

/// The index of the last `/` among the first `k` characters of `v`, when
/// only word characters follow it there.
fn slash_in(v: &Vec<char>, k: usize) -> (r: Option<usize>)
    requires
        k <= v.len(),
    ensures
        match r {
            Some(i) => i < k && last_slash(v@.take(k as int)) == Some(i as int) && forall|j: int|
                i < j < k ==> crate::twxml_tree::is_name_char(#[trigger] v@.take(k as int)[j]),
            None => !(last_slash(v@.take(k as int)) matches Some(i) && forall|j: int|
                i < j < k ==> crate::twxml_tree::is_name_char(#[trigger] v@.take(k as int)[j])),
        },
{
    let ghost before = v@.take(k as int);
    let mut s = k;
    while s > 0 && v[s - 1] != '/'
        invariant
            s <= k <= v.len(),
            before == v@.take(k as int),
            last_slash(before) == last_slash(v@.take(s as int)),
        decreases s,
    {
        assert(v@.take(s as int).drop_last() =~= v@.take(s - 1));
        s = s - 1;
    }
    if s == 0 {
        assert(v@.take(0) =~= Seq::<char>::empty());
        return None;
    }
    let slash = s - 1;
    assert(v@.take(s as int).drop_last() =~= v@.take(slash as int));
    assert(last_slash(before) == Some(slash as int));
    let mut j = slash + 1;
    while j < k
        invariant
            slash < j <= k <= v.len(),
            before == v@.take(k as int),
            last_slash(before) == Some(slash as int),
            forall|m: int| slash < m < j ==> crate::twxml_tree::is_name_char(#[trigger] before[m]),
        decreases k - j,
    {
        assert(before[j as int] == v@[j as int]);
        if !(crate::twxml_tree::is_alphanumeric(v[j]) || v[j] == '_') {
            assert(!crate::twxml_tree::is_name_char(v@.take(k as int)[j as int]));
            return None;
        }
        j = j + 1;
    }
    Some(slash)
}

/// The number of UTF-8 bytes of the first `i` characters of `v`.
fn bytes_before(v: &Vec<char>, i: usize, k: usize, col: u32) -> (b: u32)
    requires
        i <= k,
        crate::twxml_tree::chars_in_bytes(v@, col as int) == Some(k as nat),
    ensures
        b == crate::twxml_tree::byte_count(v@.take(i as int)),
{
    proof {
        crate::twxml_tree::lemma_chars_in_bytes(v@, col as int);
    }
    let mut b: u64 = 0;
    let mut m: usize = 0;
    assert(v@.take(0) =~= Seq::<char>::empty());
    while m < i
        invariant
            m <= i <= k <= v.len(),
            crate::twxml_tree::chars_in_bytes(v@, col as int) == Some(k as nat),
            b == crate::twxml_tree::byte_count(v@.take(m as int)),
            b <= col,
        decreases i - m,
    {
        proof {
            crate::twxml_tree::lemma_byte_count_push(v@.take(m as int), v@[m as int]);
            crate::twxml_tree::lemma_byte_count_bound(v@, m + 1, k as int, col as int);
        }
        assert(v@.take(m + 1) =~= v@.take(m as int).push(v@[m as int]));
        let w = crate::position::char_len_utf8(v[m]);
        b = b + w as u64;
        m = m + 1;
    }
    b as u32
}

/// The byte offset of the slash (see `slash_offset`).
fn find_slash_offset(contents: &str, pos: LspPosition) -> (r: Option<u32>)
    ensures
        match r {
            Some(b) => slash_offset(contents@, pos) == Some(b as nat),
            None => slash_offset(contents@, pos) is None,
        },
{
    reveal(slash_offset);
    let ls = crate::text::lines(contents);
    let line_no = pos.line as usize;
    if line_no >= ls.len() {
        return None;
    }
    assert(crate::text::views(ls@)[line_no as int] == ls@[line_no as int]@);
    let v = crate::text::to_chars(ls[line_no].as_str());
    let k = match crate::twxml_tree::chars_in_prefix(&v, pos.character as u128) {
        Some(k) => k,
        None => {
            return None;
        },
    };
    match slash_in(&v, k) {
        Some(slash) => {
            let b = bytes_before(&v, slash, k, pos.character);
            assert(v@.take(k as int).take(slash as int) =~= v@.take(slash as int));
            Some(b)
        },
        None => None,
    }
}

/// `items` are the two slash items for `range`, with new UUIDs.
pub open spec fn fresh_slash_entries(items: Seq<EntryView>, range: LspRange) -> bool {
    exists|v4: Seq<char>, v7: Seq<char>| v4_text(v4) && v7_text(v7) && items == #[trigger] slash_entries(range, v4, v7)
}

/// `items` are the two slash items for `range`, with UUIDs made from the
/// random bytes `e`.
pub open spec fn fresh_slash_entries_from(e: Seq<u8>, items: Seq<EntryView>, range: LspRange) -> bool {
    exists|v4: Seq<char>, v7: Seq<char>|
        v4_text_from(e, v4) && v7_text_from(e, 26, v7) && items == #[trigger] slash_entries(range, v4, v7)
}

fn slash_items(range: LspRange, v4: String, v7: String, Ghost(e): Ghost<Seq<u8>>) -> (r: Vec<CompletionEntry>)
    requires
        v4_text_from(e, v4@),
        v7_text_from(e, 26, v7@),
    ensures
        fresh_slash_entries_from(e, entries_view(r@), range),
{
    let ghost (a4, a7) = (v4@, v7@);
    let mut out: Vec<CompletionEntry> = Vec::new();
    out.push(slash_item("uuid_v4", "Generate a new UUID v4", "/uuid_v4", range, v4));
    out.push(slash_item("uuid_v7", "Generate a new UUID v7", "/uuid_v7", range, v7));
    assert(entries_view(out@) =~= slash_entries(range, a4, a7));
    assert(v4_text_from(e, a4) && v7_text_from(e, 26, a7) && entries_view(out@) == slash_entries(range, a4, a7));
    out
}

/// The UUID items offered when the text before the cursor ends with `/`
/// and a word (see `slash_offset`); none otherwise.
pub fn check_slash_uuid_completion(contents: &str, pos: LspPosition) -> (r: Option<Vec<CompletionEntry>>)
    requires
        crate::twxml_tree::cursor_between_chars(contents@, pos),
    ensures
        match slash_offset(contents@, pos) {
            Some(b) => r matches Some(v) && fresh_slash_entries(entries_view(v@), slash_range(pos, b)),
            None => r is None,
        },
{
    let none: Vec<u8> = Vec::new();
    let r = check_slash_uuid_completion_from(contents, pos, &none);
    proof {
        match slash_offset(contents@, pos) {
            Some(b) => {
                let v = r->0;
                let (a4, a7) = choose|v4: Seq<char>, v7: Seq<char>|
                    v4_text_from(none@, v4) && v7_text_from(none@, 26, v7) && entries_view(v@) == #[trigger] slash_entries(
                        slash_range(pos, b),
                        v4,
                        v7,
                    );
                assert(v4_text(a4) && v7_text(a7));
            },
            None => {},
        }
    }
    r
}

/// The UUID items offered after a slash (see `check_slash_uuid_completion`),
/// their UUIDs made from the random bytes `entropy`.
pub fn check_slash_uuid_completion_from(contents: &str, pos: LspPosition, entropy: &Vec<u8>) -> (r: Option<
    Vec<CompletionEntry>,
>)
    requires
        crate::twxml_tree::cursor_between_chars(contents@, pos),
    ensures
        match slash_offset(contents@, pos) {
            Some(b) => r matches Some(v) && fresh_slash_entries_from(entropy@, entries_view(v@), slash_range(pos, b)),
            None => r is None,
        },
{
    let b = match find_slash_offset(contents, pos) {
        Some(b) => b,
        None => {
            return None;
        },
    };
    let range = LspRange { start: LspPosition { line: pos.line, character: b }, end: pos };
    assert(range == slash_range(pos, b as nat));
    let (_rf, v4, v7) = uuids_from(entropy);
    let out = slash_items(range, v4, v7, Ghost(entropy@));
    Some(out)
}

// ---------- the request ----------

/// The items a completion request at `pos` offers from context, with the
/// UUIDs to add, when the request names the workspace file with path
/// `path` whose syntax tree is `tree` (when it could be read): TWXML and
/// HubGS files by their context; every instance otherwise, or when the
/// context calls for nothing.
pub open spec fn context_items(
    ws: Seq<crate::model::FileView>,
    path: Option<Seq<char>>,
    pos: LspPosition,
    tree: Option<crate::syntax::NodeView>,
) -> (Seq<EntryView>, OfferUuid) {
    let fallback = (all_instance_entries(ws), OfferUuid::Nothing);
    match path {
        Some(p) => match crate::resolution::file_by_path(ws, p) {
            Some(f) => match tree {
                Some(t) => if crate::text::spec_ends_with(p, ".twxml"@) {
                    match twxml_items(ws, crate::twxml_tree::twxml_context(f.contents, pos, descent_path(t, pos))) {
                        Some(x) => x,
                        None => fallback,
                    }
                } else if crate::text::spec_ends_with(p, ".hubgs"@) {
                    match hubgs_items(ws, p, descent_path(t, pos)) {
                        Some(x) => x,
                        None => fallback,
                    }
                } else {
                    fallback
                },
                None => fallback,
            },
            None => fallback,
        },
        None => fallback,
    }
}

/// The request's file is a TWXML file whose cursor falls between characters.
pub open spec fn completion_cursor_ok(
    ws: Seq<crate::model::FileView>,
    path: Option<Seq<char>>,
    buffer: Option<Seq<char>>,
    pos: LspPosition,
) -> bool {
    &&& buffer matches Some(b) ==> crate::twxml_tree::cursor_between_chars(b, pos)
    &&& path matches Some(p) ==> (crate::resolution::file_by_path(ws, p) matches Some(f) ==> (crate::text::spec_ends_with(
        p,
        ".twxml"@,
    ) ==> crate::twxml_tree::cursor_between_chars(f.contents, pos)))
}

/// The context items with the UUIDs they call for, given new UUIDs.
pub open spec fn offered_items(
    ctx: (Seq<EntryView>, OfferUuid),
    rf: Seq<char>,
    v4: Seq<char>,
    v7: Seq<char>,
) -> Seq<EntryView> {
    ctx.0 + uuid_entries(ctx.1, rf, v4, v7)
}

/// The result is the context items with newly generated UUIDs.
pub open spec fn fresh_offered_items(items: Seq<EntryView>, ctx: (Seq<EntryView>, OfferUuid)) -> bool {
    exists|rf: Seq<char>, v4: Seq<char>, v7: Seq<char>|
        v7_text(rf) && v4_text(v4) && v7_text(v7) && items == #[trigger] offered_items(ctx, rf, v4, v7)
}

/// The result is the context items with UUIDs made from the random bytes
/// `e`.
pub open spec fn fresh_offered_items_from(e: Seq<u8>, items: Seq<EntryView>, ctx: (Seq<EntryView>, OfferUuid)) -> bool {
    exists|rf: Seq<char>, v4: Seq<char>, v7: Seq<char>|
        v7_text_from(e, 0, rf) && v4_text_from(e, v4) && v7_text_from(e, 26, v7) && items == #[trigger] offered_items(
            ctx,
            rf,
            v4,
            v7,
        )
}

fn with_uuids(items: Vec<CompletionEntry>, offer: OfferUuid, entropy: &Vec<u8>) -> (r: Vec<CompletionEntry>)
    ensures
        fresh_offered_items_from(entropy@, entries_view(r@), (entries_view(items@), offer)),
{
    let ghost base = entries_view(items@);
    let r = apply_uuid_filter_from(items, offer, entropy);
    proof {
        let (rf, v4, v7) = choose|rf: Seq<char>, v4: Seq<char>, v7: Seq<char>|
            v7_text_from(entropy@, 0, rf) && v4_text_from(entropy@, v4) && v7_text_from(entropy@, 26, v7)
                && entries_view(r@) == base + #[trigger] uuid_entries(offer, rf, v4, v7);
        assert(entries_view(r@) == offered_items((base, offer), rf, v4, v7));
    }
    r
}

/// The completion items for a request at `pos` on the file with path
/// `path` (when the request names a file), whose open text is `buffer`
/// (when it is open) and whose workspace contents have the syntax tree
/// `tree` (when it could be read): the UUID items after a slash in the open
/// text; else the context items with the UUIDs they call for.
pub fn completion_items(
    ws: &Workspace,
    path: &Option<String>,
    buffer: &Option<String>,
    pos: LspPosition,
    tree: Option<&SyntaxNode>,
) -> (r: Vec<CompletionEntry>)
    requires
        completion_cursor_ok(ws@, opt_view(*path), opt_view(*buffer), pos),
    ensures
        match buffer {
            Some(b) => match slash_offset(b@, pos) {
                Some(k) => fresh_slash_entries(entries_view(r@), slash_range(pos, k)),
                None => fresh_offered_items(
                    entries_view(r@),
                    context_items(ws@, opt_view(*path), pos, crate::twxml_tree::opt_node(tree)),
                ),
            },
            None => fresh_offered_items(
                entries_view(r@),
                context_items(ws@, opt_view(*path), pos, crate::twxml_tree::opt_node(tree)),
            ),
        },
{
    let none: Vec<u8> = Vec::new();
    let r = completion_items_from(ws, path, buffer, pos, tree, &none);
    proof {
        let ctx = context_items(ws@, opt_view(*path), pos, crate::twxml_tree::opt_node(tree));
        let slash = match buffer {
            Some(b) => slash_offset(b@, pos),
            None => None,
        };
        match slash {
            Some(k) => {
                let (a4, a7) = choose|v4: Seq<char>, v7: Seq<char>|
                    v4_text_from(none@, v4) && v7_text_from(none@, 26, v7) && entries_view(r@) == #[trigger] slash_entries(
                        slash_range(pos, k),
                        v4,
                        v7,
                    );
                assert(v4_text(a4) && v7_text(a7));
            },
            None => {
                let (rf, a4, a7) = choose|rf: Seq<char>, v4: Seq<char>, v7: Seq<char>|
                    v7_text_from(none@, 0, rf) && v4_text_from(none@, v4) && v7_text_from(none@, 26, v7) && entries_view(
                        r@,
                    ) == #[trigger] offered_items(ctx, rf, v4, v7);
                assert(v7_text(rf) && v4_text(a4) && v7_text(a7));
            },
        }
    }
    r
}

/// The completion items for a request (see `completion_items`), their
/// UUIDs made from the random bytes `entropy` (see `v4_text_from` and
/// `v7_text_from`).
pub fn completion_items_from(
    ws: &Workspace,
    path: &Option<String>,
    buffer: &Option<String>,
    pos: LspPosition,
    tree: Option<&SyntaxNode>,
    entropy: &Vec<u8>,
) -> (r: Vec<CompletionEntry>)
    requires
        completion_cursor_ok(ws@, opt_view(*path), opt_view(*buffer), pos),
    ensures
        match buffer {
            Some(b) => match slash_offset(b@, pos) {
                Some(k) => fresh_slash_entries_from(entropy@, entries_view(r@), slash_range(pos, k)),
                None => fresh_offered_items_from(
                    entropy@,
                    entries_view(r@),
                    context_items(ws@, opt_view(*path), pos, crate::twxml_tree::opt_node(tree)),
                ),
            },
            None => fresh_offered_items_from(
                entropy@,
                entries_view(r@),
                context_items(ws@, opt_view(*path), pos, crate::twxml_tree::opt_node(tree)),
            ),
        },
{
    match buffer {
        Some(b) => match check_slash_uuid_completion_from(b.as_str(), pos, entropy) {
            Some(items) => {
                return items;
            },
            None => {},
        },
        None => {},
    }
    let ghost ctx = context_items(ws@, opt_view(*path), pos, crate::twxml_tree::opt_node(tree));
    let mut chosen: Option<(Vec<CompletionEntry>, OfferUuid)> = None;
    match path {
        Some(p) => match crate::resolution::file_index_by_path(ws, p) {
            Some(i) => {
                let f = &ws.files[i];
                assert(ws@[i as int] == f@);
                match tree {
                    Some(t) => {
                        if crate::text::ends_with(p.as_str(), ".twxml") {
                            chosen = handle_twxml_completion(ws, f.source.contents.as_str(), pos, t);
                        } else if crate::text::ends_with(p.as_str(), ".hubgs") {
                            chosen = handle_hubgs_completion(ws, p, pos, t);
                        }
                    },
                    None => {},
                }
            },
            None => {},
        },
        None => {},
    }
    let (items, offer) = match chosen {
        Some(x) => x,
        None => (complete_hubref_id_instances(ws), OfferUuid::Nothing),
    };
    assert((entries_view(items@), offer) == ctx);
    with_uuids(items, offer, entropy)
}

} // verus!

//! Hover contents: the source text a range covers, and the Markdown shown
//! for a hub instance, a hub type and a declared field.
use vstd::prelude::*;

use crate::markdown::{
    bold_line, bold_list_item_line, code_block_lines, heading_line, link_line, text_item_line, MarkdownContent,
};
use crate::model::{
    lemma_values_view_index, opt_view, strings_view, values_view, AssignmentView, FieldView, FileView, GlobalField,
    GlobalFieldView, HubAssignment, HubFieldDef, HubInstance, HubRoleDef, HubType, HubValue, InstanceView, RoleView,
    TypeView, ValueView, Workspace,
};
use crate::polymorphic::{has_key, has_role_named};
use crate::position::{char_len_utf16, utf16_count, utf16_len, utf16_stop, LspRange};
use crate::references::{first_assignment, format_hub_value, spec_format_hub_value};
use crate::resolution::{
    file_by_path, file_index_by_path, resolve_reference, resolve_type_at, resolve_type_at_path,
    spec_resolve_reference,
};
use crate::text::{decimal, join, lines, owned, spec_decimal, spec_join, spec_lines, string_from_range, to_chars, views};

verus! {

// ---------- the text of a range ----------

/// The number of characters of `s` before the UTF-16 offset `idx`: those
/// before the first character at which the offset is reached, or all of
/// them when `idx` lies past the end.
pub open spec fn char_stop(s: Seq<char>, idx: nat) -> nat {
    let k = utf16_stop(s, idx, 0);
    if utf16_count(s.take(k as int)) < idx {
        s.len()
    } else {
        k
    }
}

proof fn lemma_utf16_stop_bound(s: Seq<char>, idx: nat, k: nat)
    requires
        k <= s.len(),
    ensures
        k <= utf16_stop(s, idx, k) <= s.len(),
    decreases s.len() - k,
{
    if k < s.len() && utf16_count(s.take(k as int)) < idx {
        lemma_utf16_stop_bound(s, idx, k + 1);
    }
}

/// The number of characters of `v` before the UTF-16 offset `idx`.
pub(crate) fn utf16_char_index(v: &Vec<char>, idx: u32) -> (r: usize)
    ensures
        r == char_stop(v@, idx as nat),
        r <= v.len(),
{
    let mut i: usize = 0;
    let mut count: u64 = 0;
    let ghost s = v@;
    assert(s.take(0) =~= Seq::<char>::empty());
    proof {
        lemma_utf16_stop_bound(s, idx as nat, 0);
    }
    while i < v.len() && count < idx as u64
        invariant
            s == v@,
            i <= v.len(),
            count == utf16_count(s.take(i as int)),
            count <= 2 * i,
            i <= utf16_stop(s, idx as nat, 0) <= s.len(),
            utf16_stop(s, idx as nat, 0) == utf16_stop(s, idx as nat, i as nat),
        decreases v.len() - i,
    {
        assert(s.take(i + 1).drop_last() =~= s.take(i as int));
        let w = char_len_utf16(v[i]);
        count = count + w as u64;
        i = i + 1;
        proof {
            lemma_utf16_stop_bound(s, idx as nat, i as nat);
        }
    }
    if count < idx as u64 {
        assert(i == v.len());
        assert(s.take(i as int) =~= s);
        v.len()
    } else {
        i
    }
}

/// The text `r` covers in `s`, line by line: on one line, the characters
/// between the two offsets; across lines, the rest of the first line, the
/// lines between and the start of the last, joined by newlines; empty when
/// a line of the range does not exist.
pub open spec fn range_text(s: Seq<char>, r: LspRange) -> Seq<char> {
    let ls = spec_lines(s);
    let a = r.start.line as int;
    let b = r.end.line as int;
    if a >= ls.len() || b >= ls.len() {
        Seq::empty()
    } else if a == b {
        ls[a].subrange(char_stop(ls[a], r.start.character as nat) as int, char_stop(ls[a], r.end.character as nat) as int)
    } else {
        spec_join(
            seq![ls[a].skip(char_stop(ls[a], r.start.character as nat) as int)] + (if a + 1 <= b {
                ls.subrange(a + 1, b)
            } else {
                Seq::empty()
            }) + seq![ls[b].take(char_stop(ls[b], r.end.character as nat) as int)],
            "\n"@,
        )
    }
}

/// On a single line that exists, the range does not end before it starts.
pub open spec fn range_ordered(s: Seq<char>, r: LspRange) -> bool {
    let ls = spec_lines(s);
    r.start.line == r.end.line && r.start.line < ls.len() ==> char_stop(
        ls[r.start.line as int],
        r.start.character as nat,
    ) <= char_stop(ls[r.start.line as int], r.end.character as nat)
}

/// Whether `r` is ordered in `s` (see `range_ordered`).
pub fn range_is_ordered(s: &str, r: LspRange) -> (b: bool)
    ensures
        b == range_ordered(s@, r),
{
    if r.start.line != r.end.line {
        return true;
    }
    let ls = lines(s);
    let a = r.start.line as usize;
    if a >= ls.len() {
        return true;
    }
    assert(views(ls@)[a as int] == ls@[a as int]@);
    let v = to_chars(ls[a].as_str());
    utf16_char_index(&v, r.start.character) <= utf16_char_index(&v, r.end.character)
}

/// The text `range` covers in `contents` (see `range_text`).
pub fn get_range_text(contents: &str, range: LspRange) -> (r: String)
    requires
        range_ordered(contents@, range),
    ensures
        r@ == range_text(contents@, range),
{
    let ls = lines(contents);
    let ghost lv = views(ls@);
    let a = range.start.line as usize;
    let b = range.end.line as usize;
    if a >= ls.len() || b >= ls.len() {
        return String::new();
    }
    assert(lv[a as int] == ls@[a as int]@);
    assert(lv[b as int] == ls@[b as int]@);
    let first = to_chars(ls[a].as_str());
    let sa = utf16_char_index(&first, range.start.character);
    if a == b {
        let eb = utf16_char_index(&first, range.end.character);
        return string_from_range(&first, sa, eb);
    }
    let mut parts: Vec<String> = Vec::new();
    parts.push(string_from_range(&first, sa, first.len()));
    assert(first@.subrange(sa as int, first@.len() as int) =~= first@.skip(sa as int));
    let ghost head = seq![first@.skip(sa as int)];
    assert(views(parts@) =~= head);
    let mut i = a + 1;
    while i < b
        invariant
            a + 1 <= i,
            i <= b || i == a + 1,
            a < ls.len(),
            b < ls.len(),
            lv == views(ls@),
            views(parts@) == head + lv.subrange(a + 1, i as int),
        decreases b - i,
    {
        let ghost before = views(parts@);
        parts.push(ls[i].clone());
        assert(views(parts@) =~= before.push(lv[i as int]));
        assert(lv.subrange(a + 1, i + 1) =~= lv.subrange(a + 1, i as int).push(lv[i as int]));
        i = i + 1;
    }
    let last = to_chars(ls[b].as_str());
    let eb = utf16_char_index(&last, range.end.character);
    let ghost mid = views(parts@);
    parts.push(string_from_range(&last, 0, eb));
    assert(last@.subrange(0, eb as int) =~= last@.take(eb as int));
    assert(views(parts@) =~= mid.push(last@.take(eb as int)));
    if a + 1 <= b {
        assert(views(parts@) =~= head + lv.subrange(a + 1, b as int) + seq![last@.take(eb as int)]);
    } else {
        assert(lv.subrange(a + 1, i as int) =~= Seq::<Seq<char>>::empty());
        assert(views(parts@) =~= head + Seq::<Seq<char>>::empty() + seq![last@.take(eb as int)]);
    }
    join(&parts, "\n")
}

// ---------- source snippets ----------

/// The text `r` covers in the workspace file with path `path`; empty when
/// there is no such file.
pub open spec fn snippet_of(ws: Seq<FileView>, path: Seq<char>, r: LspRange) -> Seq<char> {
    match file_by_path(ws, path) {
        Some(f) => range_text(f.contents, r),
        None => Seq::empty(),
    }
}

/// A snippet can be taken: in the file with path `path`, if there is one,
/// the range `r` is ordered.
pub open spec fn snippet_ok(ws: Seq<FileView>, path: Seq<char>, r: LspRange) -> bool {
    match file_by_path(ws, path) {
        Some(f) => range_ordered(f.contents, r),
        None => true,
    }
}

fn snippet(ws: &Workspace, path: &String, r: LspRange) -> (s: String)
    requires
        snippet_ok(ws@, path@, r),
    ensures
        s@ == snippet_of(ws@, path@, r),
{
    match file_index_by_path(ws, path) {
        Some(i) => {
            assert(ws@[i as int] == ws.files@[i as int]@);
            get_range_text(ws.files[i].source.contents.as_str(), r)
        },
        None => String::new(),
    }
}

/// The lines a snippet adds to a hover: a rule and a HubGS code block, or
/// nothing for an empty snippet.
pub open spec fn snippet_lines(snippet: Seq<char>) -> Seq<Seq<char>> {
    if snippet.len() > 0 {
        seq!["---"@] + code_block_lines(snippet, "hubgs"@)
    } else {
        Seq::empty()
    }
}

fn append_snippet(md: &mut MarkdownContent, snippet: &String)
    ensures
        final(md).spec_lines() == old(md).spec_lines() + snippet_lines(snippet@),
{
    if !snippet.as_str().is_empty() {
        md.separator();
        md.code_block(snippet.as_str(), "hubgs");
        assert(md.spec_lines() =~= old(md).spec_lines() + snippet_lines(snippet@));
    } else {
        assert(md.spec_lines() =~= old(md).spec_lines() + snippet_lines(snippet@));
    }
}

// ---------- hub types ----------

/// `name direction (multiplicity)`.
pub open spec fn role_label(r: RoleView) -> Seq<char> {
    r.name + " "@ + r.direction + " ("@ + r.multiplicity + ")"@
}

/// The allowed types of a role as a hover lists them.
pub open spec fn allows_label(r: RoleView) -> Seq<char> {
    if r.allowed_types.len() == 0 {
        "(no allows list)"@
    } else {
        "ALLOWS ["@ + spec_join(r.allowed_types, ", "@) + "]"@
    }
}

/// The hover line of a field of a type.
pub open spec fn field_item(f: FieldView) -> Seq<char> {
    bold_list_item_line(f.name, "(from global field def)"@)
}

/// The hover line of a role of a type.
pub open spec fn role_item(r: RoleView) -> Seq<char> {
    bold_list_item_line(role_label(r), allows_label(r))
}

/// The hover of a hub type: its name; its fields and its roles, each
/// section after a rule and only when not empty; then its source.
pub open spec fn type_hover_lines(t: TypeView, snippet: Seq<char>) -> Seq<Seq<char>> {
    seq![heading_line(2, "Type: "@ + t.name)] + (if t.fields.len() > 0 {
        seq!["---"@, heading_line(3, "Fields:"@)] + t.fields.map_values(|f: FieldView| field_item(f))
    } else {
        Seq::empty()
    }) + (if t.roles.len() > 0 {
        seq!["---"@, heading_line(3, "Roles:"@)] + t.roles.map_values(|r: RoleView| role_item(r))
    } else {
        Seq::empty()
    }) + snippet_lines(snippet)
}

fn role_item_text(r: &HubRoleDef) -> (pair: (String, String))
    ensures
        pair.0@ == role_label(r@),
        pair.1@ == allows_label(r@),
{
    let mut label = r.name.clone();
    label.append(" ");
    label.append(r.direction.as_str());
    label.append(" (");
    label.append(r.multiplicity.as_str());
    label.append(")");
    let allows = if r.allowed_types.len() == 0 {
        owned("(no allows list)")
    } else {
        let mut a = owned("ALLOWS [");
        let joined = join(&r.allowed_types, ", ");
        assert(views(r.allowed_types@) =~= strings_view(r.allowed_types@));
        a.append(joined.as_str());
        a.append("]");
        a
    };
    (label, allows)
}

/// The hover of `hub_type` and the range it covers.
pub fn hover_type(ws: &Workspace, hub_type: &HubType) -> (r: (String, LspRange))
    requires
        snippet_ok(ws@, hub_type.file@, hub_type.block_range),
    ensures
        r.0@ == spec_join(type_hover_lines(hub_type@, snippet_of(ws@, hub_type.file@, hub_type.block_range)), "\n"@),
        r.1 == hub_type.range,
{
    let mut md = MarkdownContent::new();
    let mut title = owned("Type: ");
    title.append(hub_type.name.as_str());
    md.heading(2, title.as_str());
    let ghost l0 = md.spec_lines();
    let ghost fv = hub_type@.fields;
    if hub_type.fields.len() > 0 {
        md.separator();
        md.heading(3, "Fields:");
        let ghost base = md.spec_lines();
        let mut i: usize = 0;
        while i < hub_type.fields.len()
            invariant
                i <= hub_type.fields.len(),
                fv == hub_type@.fields,
                fv.len() == hub_type.fields@.len(),
                md.spec_lines() == base + fv.take(i as int).map_values(|f: FieldView| field_item(f)),
            decreases hub_type.fields.len() - i,
        {
            assert(fv[i as int] == hub_type.fields@[i as int]@);
            md.bold_list_item(hub_type.fields[i].name.as_str(), "(from global field def)");
            assert(fv.take(i + 1).map_values(|f: FieldView| field_item(f)) =~= fv.take(i as int).map_values(
                |f: FieldView| field_item(f),
            ).push(field_item(fv[i as int])));
            i = i + 1;
        }
        assert(fv.take(i as int) =~= fv);
    }
    let ghost l1 = md.spec_lines();
    assert(l1 == l0 + (if fv.len() > 0 {
        seq!["---"@, heading_line(3, "Fields:"@)] + fv.map_values(|f: FieldView| field_item(f))
    } else {
        Seq::empty()
    })) by {
        if fv.len() > 0 {
            assert(l1 =~= l0 + (seq!["---"@, heading_line(3, "Fields:"@)] + fv.map_values(|f: FieldView| field_item(f))));
        } else {
            assert(l1 =~= l0 + Seq::<Seq<char>>::empty());
        }
    }
    let ghost rv = hub_type@.roles;
    if hub_type.roles.len() > 0 {
        md.separator();
        md.heading(3, "Roles:");
        let ghost base = md.spec_lines();
        let mut i: usize = 0;
        while i < hub_type.roles.len()
            invariant
                i <= hub_type.roles.len(),
                rv == hub_type@.roles,
                rv.len() == hub_type.roles@.len(),
                md.spec_lines() == base + rv.take(i as int).map_values(|r: RoleView| role_item(r)),
            decreases hub_type.roles.len() - i,
        {
            assert(rv[i as int] == hub_type.roles@[i as int]@);
            let (label, allows) = role_item_text(&hub_type.roles[i]);
            md.bold_list_item(label.as_str(), allows.as_str());
            assert(rv.take(i + 1).map_values(|r: RoleView| role_item(r)) =~= rv.take(i as int).map_values(
                |r: RoleView| role_item(r),
            ).push(role_item(rv[i as int])));
            i = i + 1;
        }
        assert(rv.take(i as int) =~= rv);
    }
    let ghost l2 = md.spec_lines();
    assert(l2 == l1 + (if rv.len() > 0 {
        seq!["---"@, heading_line(3, "Roles:"@)] + rv.map_values(|r: RoleView| role_item(r))
    } else {
        Seq::empty()
    })) by {
        if rv.len() > 0 {
            assert(l2 =~= l1 + (seq!["---"@, heading_line(3, "Roles:"@)] + rv.map_values(|r: RoleView| role_item(r))));
        } else {
            assert(l2 =~= l1 + Seq::<Seq<char>>::empty());
        }
    }
    let snip = snippet(ws, &hub_type.file, hub_type.block_range);
    append_snippet(&mut md, &snip);
    assert(md.spec_lines() =~= type_hover_lines(hub_type@, snip@));
    (md.to_markdown(), hub_type.range)
}

// ---------- declared fields ----------

/// The hover of a declared field: its name, its type and its source.
pub open spec fn field_hover_lines(g: GlobalFieldView, snippet: Seq<char>) -> Seq<Seq<char>> {
    seq![heading_line(2, "Field: "@ + g.name), "---"@, bold_list_item_line("Type"@, g.field_type)] + snippet_lines(
        snippet,
    )
}

/// The hover of the declared field `field` and the range it covers.
pub fn hover_global_field(ws: &Workspace, field: &GlobalField) -> (r: (String, LspRange))
    requires
        snippet_ok(ws@, field.file@, field.range),
    ensures
        r.0@ == spec_join(field_hover_lines(field@, snippet_of(ws@, field.file@, field.range)), "\n"@),
        r.1 == field.range,
{
    let mut md = MarkdownContent::new();
    let mut title = owned("Field: ");
    title.append(field.name.as_str());
    md.heading(2, title.as_str());
    md.separator();
    md.bold_list_item("Type", field.field_type.as_str());
    let snip = snippet(ws, &field.file, field.range);
    append_snippet(&mut md, &snip);
    assert(md.spec_lines() =~= field_hover_lines(field@, snip@));
    (md.to_markdown(), field.range)
}

// ---------- hub instances ----------

/// The index of the first file of `ws` with the path `path`.
pub open spec fn path_index(ws: Seq<FileView>, path: Seq<char>) -> Option<int>
    decreases ws.len(),
{
    if ws.len() == 0 {
        None
    } else if ws[0].path == path {
        Some(0)
    } else {
        match path_index(ws.drop_first(), path) {
            Some(i) => Some(i + 1),
            None => None,
        }
    }
}

/// The link address given for the file with path `path`, where `uris`
/// holds one for each file of the workspace, in order.
pub open spec fn uri_of(ws: Seq<FileView>, uris: Seq<Option<Seq<char>>>, path: Seq<char>) -> Option<Seq<char>> {
    match path_index(ws, path) {
        Some(i) => if 0 <= i < uris.len() {
            uris[i]
        } else {
            None
        },
        None => None,
    }
}

/// The views of optional link addresses.
pub open spec fn uris_view(v: Seq<Option<String>>) -> Seq<Option<Seq<char>>> {
    v.map_values(|o: Option<String>| opt_view(o))
}


pub(crate) fn uri_for(ws: &Workspace, uris: &Vec<Option<String>>, path: &String) -> (r: Option<String>)
    ensures
        opt_view(r) == uri_of(ws@, uris_view(uris@), path@),
{
    let ghost w = ws@;
    let mut i: usize = 0;
    assert(w.skip(0) =~= w);
    while i < ws.files.len()
        invariant
            i <= ws.files.len(),
            w == ws@,
            w.len() == ws.files@.len(),
            path_index(w, path@) == match path_index(w.skip(i as int), path@) {
                Some(k) => Some(k + i),
                None => None,
            },
        decreases ws.files.len() - i,
    {
        assert(w.skip(i as int).drop_first() =~= w.skip(i + 1));
        assert(w.skip(i as int)[0] == ws.files@[i as int]@);
        if ws.files[i].source.path == *path {
            if i < uris.len() {
                return match &uris[i] {
                    Some(u) => Some(u.clone()),
                    None => None,
                };
            }
            return None;
        }
        i = i + 1;
    }
    None
}

/// The line for a role target: a link to its instance's file when it
/// resolves to an instance whose file has a link address, else a plain
/// item.
pub open spec fn target_line(ws: Seq<FileView>, uris: Seq<Option<Seq<char>>>, target: Seq<char>) -> Seq<char> {
    match spec_resolve_reference(ws, target) {
        Some(ti) => match uri_of(ws, uris, ti.file) {
            Some(u) => link_line(target, u),
            None => text_item_line(target),
        },
        None => text_item_line(target),
    }
}

/// The target lines of the identifiers among `items`, in order.
pub open spec fn item_lines(ws: Seq<FileView>, uris: Seq<Option<Seq<char>>>, items: Seq<ValueView>) -> Seq<
    Seq<char>,
>
    decreases items.len(),
{
    if items.len() == 0 {
        Seq::empty()
    } else {
        item_lines(ws, uris, items.drop_last()) + match items.last() {
            ValueView::Identifier(t) => seq![target_line(ws, uris, t)],
            _ => Seq::empty(),
        }
    }
}

/// The lines for the value assigned to a role: for a list, its count and
/// its targets; for an identifier that resolves, a count of one and the
/// target; otherwise the value itself.
pub open spec fn role_value_lines(ws: Seq<FileView>, uris: Seq<Option<Seq<char>>>, v: ValueView) -> Seq<Seq<char>> {
    match v {
        ValueView::Array(items) => seq!["Count: "@ + spec_decimal(items.len())] + item_lines(ws, uris, items),
        ValueView::Identifier(t) => match spec_resolve_reference(ws, t) {
            Some(ti) => seq![
                "Count: 1"@,
                match uri_of(ws, uris, ti.file) {
                    Some(u) => link_line(t, u),
                    None => text_item_line(t),
                },
            ],
            None => seq!["Value: "@ + spec_format_hub_value(v)],
        },
        _ => seq!["Value: "@ + spec_format_hub_value(v)],
    }
}

/// The lines for a role of an instance's type: its name and multiplicity,
/// then what the instance assigns to it (first assignment), or a count of
/// zero.
pub open spec fn role_lines(
    ws: Seq<FileView>,
    uris: Seq<Option<Seq<char>>>,
    asgs: Seq<AssignmentView>,
    r: RoleView,
) -> Seq<Seq<char>> {
    seq![bold_line(r.name + " ("@ + r.multiplicity + ")"@)] + match first_assignment(asgs, r.name) {
        Some(a) => role_value_lines(ws, uris, a.value),
        None => seq!["Count: 0"@],
    }
}

/// The lines for the roles `roles`, in order.
pub open spec fn roles_lines(
    ws: Seq<FileView>,
    uris: Seq<Option<Seq<char>>>,
    asgs: Seq<AssignmentView>,
    roles: Seq<RoleView>,
) -> Seq<Seq<char>>
    decreases roles.len(),
{
    if roles.len() == 0 {
        Seq::empty()
    } else {
        roles_lines(ws, uris, asgs, roles.drop_last()) + role_lines(ws, uris, asgs, roles.last())
    }
}

/// The lines for the assignments to names that are not roles, in order.
pub open spec fn field_value_lines(asgs: Seq<AssignmentView>, roles: Seq<RoleView>) -> Seq<Seq<char>>
    decreases asgs.len(),
{
    if asgs.len() == 0 {
        Seq::empty()
    } else {
        field_value_lines(asgs.drop_last(), roles) + if has_key(roles, asgs.last().name) {
            Seq::empty()
        } else {
            seq![bold_list_item_line(asgs.last().name, spec_format_hub_value(asgs.last().value))]
        }
    }
}

/// The roles of the instance's type, as seen from the instance's file.
pub open spec fn instance_roles(ws: Seq<FileView>, inst: InstanceView) -> Seq<RoleView> {
    match resolve_type_at(ws, inst.file, inst.instance_type) {
        Some(t) => t.roles,
        None => Seq::empty(),
    }
}

/// The hover of a hub instance: its type and name; the values assigned to
/// names that are not roles of its type; then, for each role of its type,
/// what the instance assigns to it. Each section comes after a rule and
/// only when not empty.
pub open spec fn instance_hover_lines(ws: Seq<FileView>, uris: Seq<Option<Seq<char>>>, inst: InstanceView) -> Seq<
    Seq<char>,
> {
    let roles = instance_roles(ws, inst);
    let fields = field_value_lines(inst.assignments, roles);
    seq![heading_line(2, inst.instance_type + ": "@ + inst.name + " (Hub)"@)] + (if fields.len() > 0 {
        seq!["---"@, heading_line(3, "Fields:"@)] + fields
    } else {
        Seq::empty()
    }) + (if roles.len() > 0 {
        seq!["---"@, heading_line(3, "Roles:"@)] + roles_lines(ws, uris, inst.assignments, roles)
    } else {
        Seq::empty()
    })
}

fn append_target(md: &mut MarkdownContent, ws: &Workspace, uris: &Vec<Option<String>>, target: &String)
    ensures
        final(md).spec_lines() == old(md).spec_lines().push(target_line(ws@, uris_view(uris@), target@)),
{
    match resolve_reference(ws, target) {
        Some(ti) => match uri_for(ws, uris, &ti.file) {
            Some(u) => md.link_with_uri(target.as_str(), u.as_str()),
            None => md.text_item(target.as_str()),
        },
        None => md.text_item(target.as_str()),
    }
}

fn append_role_value(md: &mut MarkdownContent, ws: &Workspace, uris: &Vec<Option<String>>, v: &HubValue)
    ensures
        final(md).spec_lines() == old(md).spec_lines() + role_value_lines(ws@, uris_view(uris@), v@),
{
    let ghost uv = uris_view(uris@);
    match v {
        HubValue::Array(arr) => {
            proof {
                lemma_values_view_index(arr@);
            }
            let ghost items = values_view(arr@);
            let mut count = owned("Count: ");
            count.append(decimal(arr.len() as u64).as_str());
            md.text(count.as_str());
            let ghost base = md.spec_lines();
            let mut i: usize = 0;
            assert(items.take(0) =~= Seq::<ValueView>::empty());
            while i < arr.len()
                invariant
                    i <= arr.len(),
                    items == values_view(arr@),
                    items.len() == arr@.len(),
                    forall|j: int| 0 <= j < arr@.len() ==> #[trigger] items[j] == crate::model::value_view(arr@[j]),
                    uv == uris_view(uris@),
                    md.spec_lines() == base + item_lines(ws@, uv, items.take(i as int)),
                decreases arr.len() - i,
            {
                assert(items.take(i + 1).drop_last() =~= items.take(i as int));
                assert(items.take(i + 1).last() == items[i as int]);
                match &arr[i] {
                    HubValue::Identifier(t) => {
                        append_target(md, ws, uris, t);
                        assert(md.spec_lines() =~= base + item_lines(ws@, uv, items.take(i + 1)));
                    },
                    _ => {
                        assert(md.spec_lines() =~= base + item_lines(ws@, uv, items.take(i + 1)));
                    },
                }
                i = i + 1;
            }
            assert(items.take(i as int) =~= items);
            assert(md.spec_lines() =~= old(md).spec_lines() + role_value_lines(ws@, uv, v@));
        },
        HubValue::Identifier(t) => {
            match resolve_reference(ws, t) {
                Some(ti) => {
                    md.text("Count: 1");
                    match uri_for(ws, uris, &ti.file) {
                        Some(u) => md.link_with_uri(t.as_str(), u.as_str()),
                        None => md.text_item(t.as_str()),
                    }
                },
                None => {
                    let mut line = owned("Value: ");
                    line.append(format_hub_value(v).as_str());
                    md.text(line.as_str());
                },
            }
            assert(md.spec_lines() =~= old(md).spec_lines() + role_value_lines(ws@, uv, v@));
        },
        _ => {
            let mut line = owned("Value: ");
            line.append(format_hub_value(v).as_str());
            md.text(line.as_str());
            assert(md.spec_lines() =~= old(md).spec_lines() + role_value_lines(ws@, uv, v@));
        },
    }
}

fn first_assignment_index(asgs: &Vec<HubAssignment>, name: &String) -> (r: Option<usize>)
    ensures
        match r {
            Some(i) => i < asgs.len() && first_assignment(asgs@.map_values(|a: HubAssignment| a@), name@) == Some(
                asgs@[i as int]@,
            ),
            None => first_assignment(asgs@.map_values(|a: HubAssignment| a@), name@) is None,
        },
{
    let ghost av = asgs@.map_values(|a: HubAssignment| a@);
    let mut i: usize = 0;
    assert(av.skip(0) =~= av);
    while i < asgs.len()
        invariant
            i <= asgs.len(),
            av == asgs@.map_values(|a: HubAssignment| a@),
            first_assignment(av, name@) == first_assignment(av.skip(i as int), name@),
        decreases asgs.len() - i,
    {
        assert(av.skip(i as int).drop_first() =~= av.skip(i + 1));
        assert(av.skip(i as int)[0] == asgs@[i as int]@);
        if asgs[i].name == *name {
            return Some(i);
        }
        i = i + 1;
    }
    None
}

fn append_roles(
    md: &mut MarkdownContent,
    ws: &Workspace,
    uris: &Vec<Option<String>>,
    inst: &HubInstance,
    roles: &Vec<HubRoleDef>,
)
    ensures
        final(md).spec_lines() == old(md).spec_lines() + roles_lines(
            ws@,
            uris_view(uris@),
            inst@.assignments,
            roles@.map_values(|r: HubRoleDef| r@),
        ),
{
    let ghost rv = roles@.map_values(|r: HubRoleDef| r@);
    let ghost uv = uris_view(uris@);
    let ghost av = inst@.assignments;
    let mut i: usize = 0;
    assert(rv.take(0) =~= Seq::<RoleView>::empty());
    while i < roles.len()
        invariant
            i <= roles.len(),
            rv == roles@.map_values(|r: HubRoleDef| r@),
            uv == uris_view(uris@),
            av == inst@.assignments,
            md.spec_lines() == old(md).spec_lines() + roles_lines(ws@, uv, av, rv.take(i as int)),
        decreases roles.len() - i,
    {
        let ghost before = md.spec_lines();
        let role = &roles[i];
        assert(rv[i as int] == role@);
        let mut label = role.name.clone();
        label.append(" (");
        label.append(role.multiplicity.as_str());
        label.append(")");
        md.bold(label.as_str());
        match first_assignment_index(&inst.assignments, &role.name) {
            Some(k) => {
                append_role_value(md, ws, uris, &inst.assignments[k].value);
            },
            None => {
                md.text("Count: 0");
            },
        }
        assert(md.spec_lines() =~= before + role_lines(ws@, uv, av, rv[i as int]));
        assert(rv.take(i + 1).drop_last() =~= rv.take(i as int));
        assert(rv.take(i + 1).last() == rv[i as int]);
        assert(md.spec_lines() =~= old(md).spec_lines() + roles_lines(ws@, uv, av, rv.take(i + 1)));
        i = i + 1;
    }
    assert(rv.take(i as int) =~= rv);
}

/// The hover of the instance `inst`, given a link address (or none) for
/// each file of the workspace, in order; and the range it covers.
pub fn hover_instance_with_uris(ws: &Workspace, inst: &HubInstance, uris: &Vec<Option<String>>) -> (r: (
    String,
    LspRange,
))
    ensures
        r.0@ == spec_join(instance_hover_lines(ws@, uris_view(uris@), inst@), "\n"@),
        r.1 == inst.range,
{
    let ghost uv = uris_view(uris@);
    let ghost av = inst@.assignments;
    let mut md = MarkdownContent::new();
    let mut title = inst.instance_type.clone();
    title.append(": ");
    title.append(inst.name.as_str());
    title.append(" (Hub)");
    md.heading(2, title.as_str());
    let ghost l0 = md.spec_lines();
    let hub_type = resolve_type_at_path(ws, &inst.file, &inst.instance_type);
    let roles: Vec<HubRoleDef> = match &hub_type {
        Some(t) => crate::model::copy_roles(&t.roles),
        None => Vec::new(),
    };
    let ghost rv = roles@.map_values(|r: HubRoleDef| r@);
    assert(rv =~= instance_roles(ws@, inst@));
    // the values assigned to names that are not roles
    let mut lines_out: Vec<(String, String)> = Vec::new();
    let mut i: usize = 0;
    let ghost fl = field_value_lines(av, rv);
    assert(av.take(0) =~= Seq::<AssignmentView>::empty());
    while i < inst.assignments.len()
        invariant
            i <= inst.assignments.len(),
            av == inst@.assignments,
            av.len() == inst.assignments@.len(),
            rv == roles@.map_values(|r: HubRoleDef| r@),
            lines_out@.map_values(|p: (String, String)| bold_list_item_line(p.0@, p.1@)) == field_value_lines(
                av.take(i as int),
                rv,
            ),
        decreases inst.assignments.len() - i,
    {
        let a = &inst.assignments[i];
        assert(av[i as int] == a@);
        assert(av.take(i + 1).drop_last() =~= av.take(i as int));
        assert(av.take(i + 1).last() == a@);
        let ghost before = lines_out@;
        if !has_role_named(&roles, &a.name) {
            lines_out.push((a.name.clone(), format_hub_value(&a.value)));
            assert(lines_out@ == before.push(lines_out@.last()));
        }
        assert(lines_out@.map_values(|p: (String, String)| bold_list_item_line(p.0@, p.1@)) =~= field_value_lines(
            av.take(i + 1),
            rv,
        ));
        i = i + 1;
    }
    assert(av.take(i as int) =~= av);
    let ghost fv = lines_out@.map_values(|p: (String, String)| bold_list_item_line(p.0@, p.1@));
    if lines_out.len() > 0 {
        md.separator();
        md.heading(3, "Fields:");
        let ghost base = md.spec_lines();
        let mut k: usize = 0;
        while k < lines_out.len()
            invariant
                k <= lines_out.len(),
                fv == lines_out@.map_values(|p: (String, String)| bold_list_item_line(p.0@, p.1@)),
                md.spec_lines() == base + fv.take(k as int),
            decreases lines_out.len() - k,
        {
            md.bold_list_item(lines_out[k].0.as_str(), lines_out[k].1.as_str());
            assert(fv.take(k + 1) =~= fv.take(k as int).push(fv[k as int]));
            k = k + 1;
        }
        assert(fv.take(k as int) =~= fv);
        assert(md.spec_lines() =~= l0 + (seq!["---"@, heading_line(3, "Fields:"@)] + fv));
    } else {
        assert(md.spec_lines() =~= l0 + Seq::<Seq<char>>::empty());
    }
    let ghost l1 = md.spec_lines();
    if roles.len() > 0 {
        md.separator();
        md.heading(3, "Roles:");
        append_roles(&mut md, ws, uris, inst, &roles);
        assert(md.spec_lines() =~= l1 + (seq!["---"@, heading_line(3, "Roles:"@)] + roles_lines(ws@, uv, av, rv)));
    } else {
        assert(md.spec_lines() =~= l1 + Seq::<Seq<char>>::empty());
    }
    assert(md.spec_lines() =~= instance_hover_lines(ws@, uv, inst@));
    (md.to_markdown(), inst.range)
}


/// Whether `s` is written in the `file:` scheme with an authority part.
pub open spec fn file_scheme(s: Seq<char>) -> bool {
    s.len() >= 7 && s.take(7) == "file://"@
}

/// The text of the `file:` URL that `Url::from_file_path` makes of a
/// path; none when the path is not absolute.
pub uninterp spec fn file_url_of(path: Seq<char>) -> Option<Seq<char>>;

/// `lsp_types::Url::from_file_path`, then the URL as text: the `file:` URL
/// of `path` (named `file_url_of`, the percent-encoding of the path's parts
/// being the crate's) when the path is absolute, which starts with
/// `file://`.
#[verifier::external_body]
fn file_url(path: &str) -> (r: Option<String>)
    ensures
        opt_view(r) == file_url_of(path@),
        r matches Some(s) ==> file_scheme(s@),
{
    match lsp_types::Url::from_file_path(path) {
        Ok(u) => Some(u.to_string()),
        Err(_) => None,
    }
}

/// The link address of each file of `ws`, in order.
pub open spec fn file_urls(ws: Seq<FileView>) -> Seq<Option<Seq<char>>> {
    Seq::new(ws.len(), |i: int| file_url_of(ws[i].path))
}

/// The link address of each file of the workspace, in order.
pub(crate) fn file_uris(ws: &Workspace) -> (r: Vec<Option<String>>)
    ensures
        r.len() == ws.files.len(),
        uris_view(r@) == file_urls(ws@),
        forall|i: int| 0 <= i < r.len() ==> (#[trigger] r@[i] matches Some(s) ==> file_scheme(s@)),
{
    let mut out: Vec<Option<String>> = Vec::new();
    let mut i: usize = 0;
    while i < ws.files.len()
        invariant
            i <= ws.files.len(),
            out.len() == i,
            forall|k: int| 0 <= k < out.len() ==> (#[trigger] out@[k] matches Some(s) ==> file_scheme(s@)),
            forall|k: int| 0 <= k < out.len() ==> opt_view(#[trigger] out@[k]) == file_url_of(ws@[k].path),
        decreases ws.files.len() - i,
    {
        assert(ws@[i as int] == ws.files@[i as int]@);
        out.push(file_url(ws.files[i].source.path.as_str()));
        i = i + 1;
    }
    assert(uris_view(out@) =~= file_urls(ws@));
    out
}

/// The hover of the instance `inst` and the range it covers; role targets
/// link to the `file:` URL of their instance's file, where it has one.
pub fn hover_instance(ws: &Workspace, inst: &HubInstance) -> (r: (String, LspRange))
    ensures
        r.0@ == spec_join(instance_hover_lines(ws@, file_urls(ws@), inst@), "\n"@),
        r.1 == inst.range,
{
    let uris = file_uris(ws);
    hover_instance_with_uris(ws, inst, &uris)
}

// ---------- what a hover shows ----------

/// The file a hover looks in: the first whose path is the requested path,
/// or the requested file name.
pub open spec fn hover_file(ws: Seq<FileView>, path: Seq<char>, file_name: Option<Seq<char>>) -> Option<FileView>
    decreases ws.len(),
{
    if ws.len() == 0 {
        None
    } else if ws[0].path == path || file_name == Some(ws[0].path) {
        Some(ws[0])
    } else {
        hover_file(ws.drop_first(), path, file_name)
    }
}

/// The first declared field of `gs` named `name`.
pub open spec fn first_global_named(gs: Seq<GlobalFieldView>, name: Seq<char>) -> Option<GlobalFieldView>
    decreases gs.len(),
{
    if gs.len() == 0 {
        None
    } else if gs[0].name == name {
        Some(gs[0])
    } else {
        first_global_named(gs.drop_first(), name)
    }
}

/// What a hover on `symbol` shows.
pub enum HoverSubject {
    Instance(InstanceView),
    Type(TypeView),
    Field(GlobalFieldView),
    Nothing,
}

/// What a hover on `symbol` shows, for a request on the file with path
/// `path` (when the request names a file) and file name `file_name`: the
/// instance the symbol names; else, in the requested file, the type it
/// names as seen from there, or the field that file declares under it.
pub open spec fn hover_subject(
    ws: Seq<FileView>,
    symbol: Seq<char>,
    path: Option<Seq<char>>,
    file_name: Option<Seq<char>>,
) -> HoverSubject {
    match spec_resolve_reference(ws, symbol) {
        Some(inst) => HoverSubject::Instance(inst),
        None => match path {
            Some(p) => match hover_file(ws, p, file_name) {
                Some(f) => match crate::resolution::spec_resolve_type(ws, f, symbol) {
                    Some(t) => HoverSubject::Type(t),
                    None => match first_global_named(f.hubgs.global_fields, symbol) {
                        Some(g) => HoverSubject::Field(g),
                        None => HoverSubject::Nothing,
                    },
                },
                None => HoverSubject::Nothing,
            },
            None => HoverSubject::Nothing,
        },
    }
}

fn snippet_is_ok(ws: &Workspace, path: &String, r: LspRange) -> (b: bool)
    ensures
        b == snippet_ok(ws@, path@, r),
{
    match file_index_by_path(ws, path) {
        Some(i) => {
            assert(ws@[i as int] == ws.files@[i as int]@);
            range_is_ordered(ws.files[i].source.contents.as_str(), r)
        },
        None => true,
    }
}

/// Whether the source snippet the hover shows can be taken (see
/// `hover_snippet_ok`).
pub fn hover_snippet_ready(ws: &Workspace, symbol: &String, path: &Option<String>, file_name: &Option<String>) -> (b:
    bool)
    ensures
        b == hover_snippet_ok(ws@, symbol@, opt_view(*path), opt_view(*file_name)),
{
    if resolve_reference(ws, symbol).is_some() {
        return true;
    }
    match path {
        Some(p) => match hover_file_index(ws, p, file_name) {
            Some(i) => {
                let f = &ws.files[i];
                assert(ws@[i as int] == f@);
                match crate::resolution::resolve_type(ws, f, symbol) {
                    Some(t) => snippet_is_ok(ws, &t.file, t.block_range),
                    None => match global_field_index(&f.hubgs.global_fields, symbol) {
                        Some(k) => {
                            let g = &f.hubgs.global_fields[k];
                            snippet_is_ok(ws, &g.file, g.range)
                        },
                        None => true,
                    },
                }
            },
            None => true,
        },
        None => true,
    }
}

/// The source snippet the hover shows can be taken.
pub open spec fn hover_snippet_ok(
    ws: Seq<FileView>,
    symbol: Seq<char>,
    path: Option<Seq<char>>,
    file_name: Option<Seq<char>>,
) -> bool {
    match hover_subject(ws, symbol, path, file_name) {
        HoverSubject::Type(t) => snippet_ok(ws, t.file, t.block_range),
        HoverSubject::Field(g) => snippet_ok(ws, g.file, g.range),
        _ => true,
    }
}

fn hover_file_index(ws: &Workspace, path: &String, file_name: &Option<String>) -> (r: Option<usize>)
    ensures
        match r {
            Some(i) => i < ws.files.len() && hover_file(ws@, path@, opt_view(*file_name)) == Some(ws@[i as int]),
            None => hover_file(ws@, path@, opt_view(*file_name)) is None,
        },
{
    let ghost w = ws@;
    let mut i: usize = 0;
    assert(w.skip(0) =~= w);
    while i < ws.files.len()
        invariant
            i <= ws.files.len(),
            w == ws@,
            hover_file(w, path@, opt_view(*file_name)) == hover_file(w.skip(i as int), path@, opt_view(*file_name)),
        decreases ws.files.len() - i,
    {
        assert(w.skip(i as int).drop_first() =~= w.skip(i + 1));
        assert(w.skip(i as int)[0] == ws.files@[i as int]@);
        let p = &ws.files[i].source.path;
        let by_name = match file_name {
            Some(n) => *n == *p,
            None => false,
        };
        if *p == *path || by_name {
            return Some(i);
        }
        i = i + 1;
    }
    None
}

fn global_field_index(fields: &Vec<GlobalField>, name: &String) -> (r: Option<usize>)
    ensures
        match r {
            Some(i) => i < fields.len() && first_global_named(fields@.map_values(|g: GlobalField| g@), name@) == Some(
                fields@[i as int]@,
            ),
            None => first_global_named(fields@.map_values(|g: GlobalField| g@), name@) is None,
        },
{
    let ghost gv = fields@.map_values(|g: GlobalField| g@);
    let mut i: usize = 0;
    assert(gv.skip(0) =~= gv);
    while i < fields.len()
        invariant
            i <= fields.len(),
            gv == fields@.map_values(|g: GlobalField| g@),
            first_global_named(gv, name@) == first_global_named(gv.skip(i as int), name@),
        decreases fields.len() - i,
    {
        assert(gv.skip(i as int).drop_first() =~= gv.skip(i + 1));
        assert(gv.skip(i as int)[0] == fields@[i as int]@);
        if fields[i].name == *name {
            return Some(i);
        }
        i = i + 1;
    }
    None
}

/// The hover for `symbol` (see `hover_subject`) and the range it covers.
pub fn hover_impl(ws: &Workspace, symbol: &String, path: &Option<String>, file_name: &Option<String>) -> (r: Option<
    (String, LspRange),
>)
    requires
        hover_snippet_ok(ws@, symbol@, opt_view(*path), opt_view(*file_name)),
    ensures
        match hover_subject(ws@, symbol@, opt_view(*path), opt_view(*file_name)) {
            HoverSubject::Instance(inst) => r matches Some(x) && x.1 == inst.range && x.0@ == spec_join(
                instance_hover_lines(ws@, file_urls(ws@), inst),
                "\n"@,
            ),
            HoverSubject::Type(t) => r matches Some(x) && x.1 == t.range && x.0@ == spec_join(
                type_hover_lines(t, snippet_of(ws@, t.file, t.block_range)),
                "\n"@,
            ),
            HoverSubject::Field(g) => r matches Some(x) && x.1 == g.range && x.0@ == spec_join(
                field_hover_lines(g, snippet_of(ws@, g.file, g.range)),
                "\n"@,
            ),
            HoverSubject::Nothing => r is None,
        },
{
    match resolve_reference(ws, symbol) {
        Some(inst) => {
            return Some(hover_instance(ws, &inst));
        },
        None => {},
    }
    match path {
        Some(p) => match hover_file_index(ws, p, file_name) {
            Some(i) => {
                let f = &ws.files[i];
                assert(ws@[i as int] == f@);
                match crate::resolution::resolve_type(ws, f, symbol) {
                    Some(t) => Some(hover_type(ws, &t)),
                    None => match global_field_index(&f.hubgs.global_fields, symbol) {
                        Some(k) => Some(hover_global_field(ws, &f.hubgs.global_fields[k])),
                        None => None,
                    },
                }
            },
            None => None,
        },
        None => None,
    }
}

} // verus!

//! Navigation: the symbol under the cursor, where it is defined, what
//! implements a type, where a symbol is highlighted in a file, the edits a
//! rename makes, and the call hierarchy between instances and types.
use vstd::prelude::*;
use vstd::string::StringSliceAdditionalSpecFns;

use crate::hover::{path_index, uri_of, uris_view};
use crate::model::{opt_view, FileView, HubInstance, HubReference, HubType, InstanceView, ReferenceView, TypeView, Workspace};
use crate::position::{spec_utf16_idx_to_byte_idx, utf16_idx_to_byte_idx, LspPosition, LspRange};
use crate::references::{find_all_references, refs_view, workspace_refs};
use crate::resolution::{
    all_hub_instances, all_instances_of, file_by_path, file_index_by_path, resolve_reference, resolve_type,
    resolve_type_at, resolve_type_at_path, spec_resolve_reference, spec_resolve_type,
};
use crate::syntax::{field_child, lemma_nodes_view, NodeView, SyntaxNode};
use crate::text::{lines, owned, spec_lines, str_eq, views};
use crate::tree_query::{descend, descent_path, refs_view as path_view};
use crate::twxml_tree::unquoted;

verus! {

// ---------- the symbol under the cursor ----------

/// The point of the syntax tree an editor position stands for: the same
/// line, and the byte offset of the UTF-16 column in that line (the column
/// itself past the last line).
pub open spec fn point_of(s: Seq<char>, pos: LspPosition) -> LspPosition {
    let ls = spec_lines(s);
    LspPosition {
        line: pos.line,
        character: if pos.line < ls.len() {
            spec_utf16_idx_to_byte_idx(ls[pos.line as int], pos.character as nat) as u32
        } else {
            pos.character
        },
    }
}

/// The byte offsets of the cursor's line fit the tree's columns.
pub open spec fn line_fits(s: Seq<char>, pos: LspPosition) -> bool {
    let ls = spec_lines(s);
    pos.line < ls.len() ==> crate::position::utf8_count(ls[pos.line as int]) <= u32::MAX
}

/// The node at index `j` of `path` is the value of an `id` attribute of a
/// hubref start tag or self-closing hubref.
pub open spec fn hubref_id_value(path: Seq<NodeView>, j: int) -> bool {
    &&& j >= 2
    &&& path[j - 1].kind == "attribute"@
    &&& (path[j - 2].kind == "start_tag"@ || path[j - 2].kind == "self_closing_element"@)
    &&& field_child(path[j - 2], "name"@) matches Some(nm) && nm.text == "hubref"@
    &&& path[j - 1].children.len() > 0 && path[j - 1].children[0].text == "id"@
}

/// Scanning `path` upward from index `k - 1`, the index of the first
/// identifier, or of the first attribute value when it is a hubref `id`;
/// none at another attribute value or when there is neither.
pub open spec fn symbol_up(path: Seq<NodeView>, k: int) -> Option<int>
    decreases k,
{
    if k <= 0 || k > path.len() {
        None
    } else if path[k - 1].kind == "identifier"@ {
        Some(k - 1)
    } else if path[k - 1].kind == "attribute_value"@ {
        if hubref_id_value(path, k - 1) {
            Some(k - 1)
        } else {
            None
        }
    } else {
        symbol_up(path, k - 1)
    }
}

/// The symbol at `pos` in the document `s` whose syntax tree gives the
/// descent path `path` (taken at the point of `pos`): the text of the
/// identifier or hubref `id` value found (quotes trimmed from a value),
/// when the point's line lies within its lines.
pub open spec fn symbol_on_path(s: Seq<char>, pos: LspPosition, path: Seq<NodeView>) -> Option<Seq<char>> {
    match symbol_up(path, path.len() as int) {
        Some(j) => {
            let n = path[j];
            let p = point_of(s, pos);
            if n.range.start.line <= p.line && p.line <= n.range.end.line {
                Some(
                    if n.kind == "attribute_value"@ {
                        unquoted(n.text)
                    } else {
                        n.text
                    },
                )
            } else {
                None
            }
        },
        None => None,
    }
}

fn point_at(contents: &str, pos: LspPosition) -> (p: LspPosition)
    requires
        line_fits(contents@, pos),
    ensures
        p == point_of(contents@, pos),
{
    let ls = lines(contents);
    let line_no = pos.line as usize;
    if line_no < ls.len() {
        assert(views(ls@)[line_no as int] == ls@[line_no as int]@);
        let line = ls[line_no].as_str();
        assert(line.spec_bytes() == vstd::utf8::encode_utf8(line@));
        let b = utf16_idx_to_byte_idx(line, pos.character as usize);
        LspPosition { line: pos.line, character: b as u32 }
    } else {
        LspPosition { line: pos.line, character: pos.character }
    }
}

fn symbol_index(path: &Vec<&SyntaxNode>) -> (r: Option<usize>)
    ensures
        match r {
            Some(j) => j < path@.len() && symbol_up(path_view(path@), path@.len() as int) == Some(j as int),
            None => symbol_up(path_view(path@), path@.len() as int) is None,
        },
{
    let ghost pv = path_view(path@);
    let mut k = path.len();
    while k > 0
        invariant
            k <= path@.len(),
            pv == path_view(path@),
            symbol_up(pv, path@.len() as int) == symbol_up(pv, k as int),
        decreases k,
    {
        let n: &SyntaxNode = path[k - 1];
        assert(pv[k - 1] == n@);
        if str_eq(n.kind.as_str(), "identifier") {
            return Some(k - 1);
        }
        if str_eq(n.kind.as_str(), "attribute_value") {
            let j = k - 1;
            if j < 2 {
                return None;
            }
            let attr: &SyntaxNode = path[j - 1];
            let tag: &SyntaxNode = path[j - 2];
            assert(pv[j - 1] == attr@);
            assert(pv[j - 2] == tag@);
            proof {
                lemma_nodes_view(attr.children@);
                lemma_nodes_view(tag.children@);
            }
            if !str_eq(attr.kind.as_str(), "attribute") {
                return None;
            }
            if !str_eq(tag.kind.as_str(), "start_tag") && !str_eq(tag.kind.as_str(), "self_closing_element") {
                return None;
            }
            let named_hubref = match tag.child_by_field_name("name") {
                Some(i) => str_eq(tag.children[i].text.as_str(), "hubref"),
                None => false,
            };
            if !named_hubref {
                return None;
            }
            if attr.children.len() > 0 && str_eq(attr.children[0].text.as_str(), "id") {
                return Some(j);
            }
            return None;
        }
        k = k - 1;
    }
    None
}

/// The symbol at `pos` in the document `contents` whose syntax tree is
/// `root` (see `symbol_on_path`).
pub fn symbol_at_position(contents: &str, pos: LspPosition, root: &SyntaxNode) -> (r: Option<String>)
    requires
        line_fits(contents@, pos),
    ensures
        opt_view(r) == symbol_on_path(contents@, pos, descent_path(root@, point_of(contents@, pos))),
{
    let p = point_at(contents, pos);
    let path = descend(root, p);
    let ghost pv = path_view(path@);
    match symbol_index(&path) {
        Some(j) => {
            let n: &SyntaxNode = path[j];
            assert(pv[j as int] == n@);
            if n.range.start.line <= p.line && p.line <= n.range.end.line {
                if str_eq(n.kind.as_str(), "attribute_value") {
                    Some(crate::twxml_tree::unquote_text(n.text.as_str()))
                } else {
                    Some(n.text.clone())
                }
            } else {
                None
            }
        },
        None => None,
    }
}

// ---------- definitions ----------

/// Where the symbol is defined: the instance it names; else the type it
/// names as seen from the requested file (when the request names a file
/// of the workspace). Given as the defining file's path and the range.
pub open spec fn definition_of(ws: Seq<FileView>, symbol: Seq<char>, path: Option<Seq<char>>) -> Option<
    (Seq<char>, LspRange),
> {
    match spec_resolve_reference(ws, symbol) {
        Some(inst) => Some((inst.file, inst.range)),
        None => match path {
            Some(p) => match resolve_type_at(ws, p, symbol) {
                Some(t) => Some((t.file, t.range)),
                None => None,
            },
            None => None,
        },
    }
}

/// The definition of `symbol` (see `definition_of`).
pub fn resolve_definition(ws: &Workspace, symbol: &String, path: &Option<String>) -> (r: Option<(String, LspRange)>)
    ensures
        match r {
            Some((f, rg)) => definition_of(ws@, symbol@, opt_view(*path)) == Some((f@, rg)),
            None => definition_of(ws@, symbol@, opt_view(*path)) is None,
        },
{
    match resolve_reference(ws, symbol) {
        Some(inst) => {
            return Some((inst.file.clone(), inst.range));
        },
        None => {},
    }
    match path {
        Some(p) => match resolve_type_at_path(ws, p, symbol) {
            Some(t) => Some((t.file.clone(), t.range)),
            None => None,
        },
        None => None,
    }
}

/// The type definition for the symbol: the type of the instance it names
/// (seen from that instance's file), when it resolves; else the type the
/// symbol names as seen from the requested file.
pub open spec fn type_definition_of(ws: Seq<FileView>, symbol: Seq<char>, path: Option<Seq<char>>) -> Option<
    (Seq<char>, LspRange),
> {
    let own = match path {
        Some(p) => match resolve_type_at(ws, p, symbol) {
            Some(t) => Some((t.file, t.range)),
            None => None,
        },
        None => None,
    };
    match spec_resolve_reference(ws, symbol) {
        Some(inst) => match resolve_type_at(ws, inst.file, inst.instance_type) {
            Some(t) => Some((t.file, t.range)),
            None => own,
        },
        None => own,
    }
}

/// The type definition of `symbol` (see `type_definition_of`).
pub fn resolve_type_definition(ws: &Workspace, symbol: &String, path: &Option<String>) -> (r: Option<
    (String, LspRange),
>)
    ensures
        match r {
            Some((f, rg)) => type_definition_of(ws@, symbol@, opt_view(*path)) == Some((f@, rg)),
            None => type_definition_of(ws@, symbol@, opt_view(*path)) is None,
        },
{
    match resolve_reference(ws, symbol) {
        Some(inst) => match resolve_type_at_path(ws, &inst.file, &inst.instance_type) {
            Some(t) => {
                return Some((t.file.clone(), t.range));
            },
            None => {},
        },
        None => {},
    }
    match path {
        Some(p) => match resolve_type_at_path(ws, p, symbol) {
            Some(t) => Some((t.file.clone(), t.range)),
            None => None,
        },
        None => None,
    }
}

/// The instances of the workspace whose type is named `name`, as their
/// file's path and range, in order.
pub open spec fn instances_of_type(insts: Seq<InstanceView>, name: Seq<char>) -> Seq<(Seq<char>, LspRange)>
    decreases insts.len(),
{
    if insts.len() == 0 {
        Seq::empty()
    } else {
        instances_of_type(insts.drop_last(), name) + if insts.last().instance_type == name {
            seq![(insts.last().file, insts.last().range)]
        } else {
            Seq::empty()
        }
    }
}

/// The implementations of the type the symbol names as seen from the
/// requested file: its instances, when there are any.
pub open spec fn implementations_of(ws: Seq<FileView>, symbol: Seq<char>, path: Option<Seq<char>>) -> Option<
    Seq<(Seq<char>, LspRange)>,
> {
    match path {
        Some(p) => match resolve_type_at(ws, p, symbol) {
            Some(t) => {
                let found = instances_of_type(all_instances_of(ws), t.name);
                if found.len() > 0 {
                    Some(found)
                } else {
                    None
                }
            },
            None => None,
        },
        None => None,
    }
}

/// The views of located ranges.
pub open spec fn locations_view(v: Seq<(String, LspRange)>) -> Seq<(Seq<char>, LspRange)> {
    v.map_values(|x: (String, LspRange)| (x.0@, x.1))
}

/// The implementations of `symbol` (see `implementations_of`).
pub fn goto_implementation(ws: &Workspace, symbol: &String, path: &Option<String>) -> (r: Option<
    Vec<(String, LspRange)>,
>)
    ensures
        match r {
            Some(v) => implementations_of(ws@, symbol@, opt_view(*path)) == Some(locations_view(v@)),
            None => implementations_of(ws@, symbol@, opt_view(*path)) is None,
        },
{
    let p = match path {
        Some(p) => p,
        None => {
            return None;
        },
    };
    let t = match resolve_type_at_path(ws, p, symbol) {
        Some(t) => t,
        None => {
            return None;
        },
    };
    let all = all_hub_instances(ws);
    let ghost iv = all@.map_values(|i: HubInstance| i@);
    let mut out: Vec<(String, LspRange)> = Vec::new();
    let mut k: usize = 0;
    assert(iv.take(0) =~= Seq::<InstanceView>::empty());
    while k < all.len()
        invariant
            k <= all.len(),
            iv == all@.map_values(|i: HubInstance| i@),
            iv == all_instances_of(ws@),
            locations_view(out@) == instances_of_type(iv.take(k as int), t@.name),
        decreases all.len() - k,
    {
        let inst = &all[k];
        assert(iv[k as int] == inst@);
        let ghost before = locations_view(out@);
        if inst.instance_type == t.name {
            out.push((inst.file.clone(), inst.range));
            assert(locations_view(out@) =~= before.push((inst@.file, inst@.range)));
        }
        assert(iv.take(k + 1).drop_last() =~= iv.take(k as int));
        assert(iv.take(k + 1).last() == inst@);
        assert(locations_view(out@) =~= instances_of_type(iv.take(k + 1), t@.name));
        k = k + 1;
    }
    assert(iv.take(k as int) =~= iv);
    if out.len() > 0 {
        Some(out)
    } else {
        None
    }
}

// ---------- highlights ----------

/// How a highlighted occurrence uses the symbol.
#[derive(Clone, Copy, Debug, PartialEq, Eq, Structural)]
pub enum HighlightKind {
    Read,
    Write,
}

/// The ranges of the references of `refs` made from the file `path`.
pub open spec fn refs_in_file(refs: Seq<ReferenceView>, path: Seq<char>) -> Seq<(LspRange, HighlightKind)>
    decreases refs.len(),
{
    if refs.len() == 0 {
        Seq::empty()
    } else {
        refs_in_file(refs.drop_last(), path) + if refs.last().file == path {
            seq![(refs.last().range, HighlightKind::Read)]
        } else {
            Seq::empty()
        }
    }
}

/// The definitions of the symbol in the HubGS file `f`: the first instance
/// and the first type of that name.
pub open spec fn definitions_in(f: FileView, symbol: Seq<char>) -> Seq<(LspRange, HighlightKind)> {
    (match crate::resolution::first_instance_named(f.hubgs.instances, symbol) {
        Some(i) => seq![(i.range, HighlightKind::Write)],
        None => Seq::empty(),
    }) + match crate::resolution::lookup_type(f.hubgs.types, symbol) {
        Some(t) => seq![(t.range, HighlightKind::Write)],
        None => Seq::empty(),
    }
}

/// The highlights of the symbol in the requested file (when the request
/// names a file): in a HubGS file of the workspace, the instance and the
/// type it defines under that name; then every reference to it made from
/// that file.
pub open spec fn highlights_of(ws: Seq<FileView>, symbol: Seq<char>, path: Option<Seq<char>>) -> Seq<
    (LspRange, HighlightKind),
> {
    match path {
        Some(p) => (if crate::text::spec_ends_with(p, ".hubgs"@) {
            match file_by_path(ws, p) {
                Some(f) => definitions_in(f, symbol),
                None => Seq::empty(),
            }
        } else {
            Seq::empty()
        }) + refs_in_file(workspace_refs(ws, symbol), p),
        None => Seq::empty(),
    }
}

fn first_instance_index(v: &Vec<HubInstance>, name: &String) -> (r: Option<usize>)
    ensures
        match r {
            Some(i) => i < v.len() && crate::resolution::first_instance_named(
                v@.map_values(|x: HubInstance| x@),
                name@,
            ) == Some(v@[i as int]@),
            None => crate::resolution::first_instance_named(v@.map_values(|x: HubInstance| x@), name@) is None,
        },
{
    let ghost m = v@.map_values(|x: HubInstance| x@);
    let mut i: usize = 0;
    assert(m.skip(0) =~= m);
    while i < v.len()
        invariant
            i <= v.len(),
            m == v@.map_values(|x: HubInstance| x@),
            crate::resolution::first_instance_named(m, name@) == crate::resolution::first_instance_named(
                m.skip(i as int),
                name@,
            ),
        decreases v.len() - i,
    {
        assert(m.skip(i as int).drop_first() =~= m.skip(i + 1));
        assert(m.skip(i as int)[0] == v@[i as int]@);
        if v[i].name == *name {
            return Some(i);
        }
        i = i + 1;
    }
    None
}

fn first_type_index(v: &Vec<HubType>, name: &String) -> (r: Option<usize>)
    ensures
        match r {
            Some(i) => i < v.len() && crate::resolution::lookup_type(v@.map_values(|x: HubType| x@), name@) == Some(
                v@[i as int]@,
            ),
            None => crate::resolution::lookup_type(v@.map_values(|x: HubType| x@), name@) is None,
        },
{
    let ghost m = v@.map_values(|x: HubType| x@);
    let mut i: usize = 0;
    assert(m.skip(0) =~= m);
    while i < v.len()
        invariant
            i <= v.len(),
            m == v@.map_values(|x: HubType| x@),
            crate::resolution::lookup_type(m, name@) == crate::resolution::lookup_type(m.skip(i as int), name@),
        decreases v.len() - i,
    {
        assert(m.skip(i as int).drop_first() =~= m.skip(i + 1));
        assert(m.skip(i as int)[0] == v@[i as int]@);
        if v[i].name == *name {
            return Some(i);
        }
        i = i + 1;
    }
    None
}

/// The highlights of `symbol` in the requested file (see `highlights_of`).
pub fn document_highlights(ws: &Workspace, symbol: &String, path: &Option<String>) -> (r: Vec<
    (LspRange, HighlightKind),
>)
    ensures
        r@ == highlights_of(ws@, symbol@, opt_view(*path)),
{
    let p = match path {
        Some(p) => p,
        None => {
            return Vec::new();
        },
    };
    let mut out: Vec<(LspRange, HighlightKind)> = Vec::new();
    if crate::text::ends_with(p.as_str(), ".hubgs") {
        match file_index_by_path(ws, p) {
            Some(i) => {
                let f = &ws.files[i];
                assert(ws@[i as int] == f@);
                match first_instance_index(&f.hubgs.instances, symbol) {
                    Some(k) => out.push((f.hubgs.instances[k].range, HighlightKind::Write)),
                    None => {},
                }
                match first_type_index(&f.hubgs.types, symbol) {
                    Some(k) => out.push((f.hubgs.types[k].range, HighlightKind::Write)),
                    None => {},
                }
                assert(out@ =~= definitions_in(f@, symbol@));
            },
            None => {},
        }
    }
    let ghost defs = out@;
    let refs = find_all_references(ws, symbol);
    let ghost rv = refs_view(refs@);
    let mut k: usize = 0;
    assert(rv.take(0) =~= Seq::<ReferenceView>::empty());
    while k < refs.len()
        invariant
            k <= refs.len(),
            rv == refs_view(refs@),
            out@ == defs + refs_in_file(rv.take(k as int), p@),
        decreases refs.len() - k,
    {
        assert(rv[k as int] == refs@[k as int]@);
        if refs[k].file == *p {
            out.push((refs[k].range, HighlightKind::Read));
        }
        assert(rv.take(k + 1).drop_last() =~= rv.take(k as int));
        assert(out@ =~= defs + refs_in_file(rv.take(k + 1), p@));
        k = k + 1;
    }
    assert(rv.take(k as int) =~= rv);
    out
}

// ---------- references and renames ----------

/// The link address of each file of the workspace, in order (see
/// `hover::file_urls`): each file's `file:` URL, where it has one.
pub fn workspace_uris(ws: &Workspace) -> (r: Vec<Option<String>>)
    ensures
        r.len() == ws.files.len(),
        crate::hover::uris_view(r@) == crate::hover::file_urls(ws@),
        forall|i: int| 0 <= i < r.len() ==> (#[trigger] r@[i] matches Some(s) ==> crate::hover::file_scheme(s@)),
{
    crate::hover::file_uris(ws)
}

/// The references of `refs` whose file has a link address, as that address
/// and the reference's range, in order.
pub open spec fn located_refs(
    ws: Seq<FileView>,
    uris: Seq<Option<Seq<char>>>,
    refs: Seq<ReferenceView>,
) -> Seq<(Seq<char>, LspRange)>
    decreases refs.len(),
{
    if refs.len() == 0 {
        Seq::empty()
    } else {
        located_refs(ws, uris, refs.drop_last()) + match uri_of(ws, uris, refs.last().file) {
            Some(u) => seq![(u, refs.last().range)],
            None => Seq::empty(),
        }
    }
}

fn locate_refs(ws: &Workspace, uris: &Vec<Option<String>>, refs: &Vec<HubReference>) -> (r: Vec<(String, LspRange)>)
    ensures
        locations_view(r@) == located_refs(ws@, uris_view(uris@), refs_view(refs@)),
{
    let ghost rv = refs_view(refs@);
    let ghost uv = uris_view(uris@);
    let mut out: Vec<(String, LspRange)> = Vec::new();
    let mut k: usize = 0;
    assert(rv.take(0) =~= Seq::<ReferenceView>::empty());
    while k < refs.len()
        invariant
            k <= refs.len(),
            rv == refs_view(refs@),
            uv == uris_view(uris@),
            locations_view(out@) == located_refs(ws@, uv, rv.take(k as int)),
        decreases refs.len() - k,
    {
        assert(rv[k as int] == refs@[k as int]@);
        let ghost before = locations_view(out@);
        match crate::hover::uri_for(ws, uris, &refs[k].file) {
            Some(u) => {
                out.push((u, refs[k].range));
                assert(locations_view(out@) =~= before.push((out@.last().0@, refs@[k as int].range)));
            },
            None => {},
        }
        assert(rv.take(k + 1).drop_last() =~= rv.take(k as int));
        assert(locations_view(out@) =~= located_refs(ws@, uv, rv.take(k + 1)));
        k = k + 1;
    }
    assert(rv.take(k as int) =~= rv);
    out
}

/// The references to `symbol` as locations, given a link address (or none)
/// for each file of the workspace: those of files without one are left out.
pub fn reference_locations(ws: &Workspace, symbol: &String, uris: &Vec<Option<String>>) -> (r: Vec<(String, LspRange)>)
    ensures
        locations_view(r@) == located_refs(ws@, uris_view(uris@), workspace_refs(ws@, symbol@)),
{
    let refs = find_all_references(ws, symbol);
    locate_refs(ws, uris, &refs)
}

/// The distinct keys of `flat`, in the order they first come.
pub open spec fn distinct_keys<E>(flat: Seq<(Seq<char>, E)>) -> Seq<Seq<char>>
    decreases flat.len(),
{
    if flat.len() == 0 {
        Seq::empty()
    } else {
        let ks = distinct_keys(flat.drop_last());
        if ks.contains(flat.last().0) {
            ks
        } else {
            ks.push(flat.last().0)
        }
    }
}

/// The values of `flat` under `key`, in order.
pub open spec fn values_under<E>(flat: Seq<(Seq<char>, E)>, key: Seq<char>) -> Seq<E>
    decreases flat.len(),
{
    if flat.len() == 0 {
        Seq::empty()
    } else {
        values_under(flat.drop_last(), key) + if flat.last().0 == key {
            seq![flat.last().1]
        } else {
            Seq::empty()
        }
    }
}

/// `flat` grouped by key: each key once, in the order keys first come,
/// with its values in order.
pub open spec fn grouped<E>(flat: Seq<(Seq<char>, E)>) -> Seq<(Seq<char>, Seq<E>)> {
    distinct_keys(flat).map_values(|k: Seq<char>| (k, values_under(flat, k)))
}

/// The edits a rename makes before grouping: the instance the symbol names
/// (its name's range), then every reference to it; each where its file has
/// a link address, as that address and the range to replace.
pub open spec fn rename_sites(ws: Seq<FileView>, uris: Seq<Option<Seq<char>>>, symbol: Seq<char>) -> Seq<
    (Seq<char>, LspRange),
> {
    (match spec_resolve_reference(ws, symbol) {
        Some(inst) => match uri_of(ws, uris, inst.file) {
            Some(u) => seq![(u, inst.range)],
            None => Seq::empty(),
        },
        None => Seq::empty(),
    }) + located_refs(ws, uris, workspace_refs(ws, symbol))
}

fn group_sites(flat: &Vec<(String, LspRange)>) -> (r: Vec<(String, Vec<LspRange>)>)
    ensures
        r@.map_values(|g: (String, Vec<LspRange>)| (g.0@, g.1@)) == grouped(locations_view(flat@)),
{
    let ghost fv = locations_view(flat@);
    // the keys, in the order they first come
    let mut keys: Vec<String> = Vec::new();
    let mut k: usize = 0;
    assert(fv.take(0) =~= Seq::<(Seq<char>, LspRange)>::empty());
    while k < flat.len()
        invariant
            k <= flat.len(),
            fv == locations_view(flat@),
            views(keys@) == distinct_keys(fv.take(k as int)),
        decreases flat.len() - k,
    {
        assert(fv[k as int] == (flat@[k as int].0@, flat@[k as int].1));
        assert(fv.take(k + 1).drop_last() =~= fv.take(k as int));
        let key = &flat[k].0;
        let mut seen = false;
        let mut j: usize = 0;
        while j < keys.len()
            invariant
                j <= keys.len(),
                seen == exists|m: int| 0 <= m < j && #[trigger] keys@[m]@ == key@,
            decreases keys.len() - j,
        {
            if keys[j] == *key {
                seen = true;
            }
            j = j + 1;
        }
        assert(seen == views(keys@).contains(key@)) by {
            if seen {
                let m = choose|m: int| 0 <= m < keys.len() && #[trigger] keys@[m]@ == key@;
                assert(views(keys@)[m] == key@);
            }
            if views(keys@).contains(key@) {
                let m = choose|m: int| 0 <= m < views(keys@).len() && views(keys@)[m] == key@;
                assert(keys@[m]@ == key@);
            }
        }
        let ghost before = views(keys@);
        if !seen {
            keys.push(key.clone());
            assert(views(keys@) =~= before.push(key@));
        }
        k = k + 1;
    }
    assert(fv.take(k as int) =~= fv);
    // the values under each key
    let mut out: Vec<(String, Vec<LspRange>)> = Vec::new();
    let ghost kv = views(keys@);
    let mut g: usize = 0;
    while g < keys.len()
        invariant
            g <= keys.len(),
            fv == locations_view(flat@),
            kv == views(keys@),
            kv == distinct_keys(fv),
            out@.map_values(|x: (String, Vec<LspRange>)| (x.0@, x.1@)) == kv.take(g as int).map_values(
                |key: Seq<char>| (key, values_under(fv, key)),
            ),
        decreases keys.len() - g,
    {
        let key = &keys[g];
        let mut vals: Vec<LspRange> = Vec::new();
        let mut i: usize = 0;
        assert(fv.take(0) =~= Seq::<(Seq<char>, LspRange)>::empty());
        while i < flat.len()
            invariant
                i <= flat.len(),
                fv == locations_view(flat@),
                vals@ == values_under(fv.take(i as int), key@),
            decreases flat.len() - i,
        {
            assert(fv[i as int] == (flat@[i as int].0@, flat@[i as int].1));
            assert(fv.take(i + 1).drop_last() =~= fv.take(i as int));
            if flat[i].0 == *key {
                vals.push(flat[i].1);
            }
            assert(vals@ =~= values_under(fv.take(i + 1), key@));
            i = i + 1;
        }
        assert(fv.take(i as int) =~= fv);
        let ghost before = out@.map_values(|x: (String, Vec<LspRange>)| (x.0@, x.1@));
        out.push((key.clone(), vals));
        assert(out@.map_values(|x: (String, Vec<LspRange>)| (x.0@, x.1@)) =~= before.push((kv[g as int], values_under(fv, kv[g as int]))));
        assert(kv.take(g + 1).map_values(|key: Seq<char>| (key, values_under(fv, key))) =~= kv.take(g as int).map_values(
            |key: Seq<char>| (key, values_under(fv, key)),
        ).push((kv[g as int], values_under(fv, kv[g as int]))));
        g = g + 1;
    }
    assert(kv.take(g as int) =~= kv);
    out
}

/// The edits renaming `symbol`, given a link address (or none) for each
/// file of the workspace: the ranges of `rename_sites` grouped by file
/// address, each to be replaced by the new name.
pub fn rename_edits(ws: &Workspace, symbol: &String, uris: &Vec<Option<String>>) -> (r: Vec<(String, Vec<LspRange>)>)
    ensures
        r@.map_values(|g: (String, Vec<LspRange>)| (g.0@, g.1@)) == grouped(
            rename_sites(ws@, uris_view(uris@), symbol@),
        ),
{
    let mut flat: Vec<(String, LspRange)> = Vec::new();
    match resolve_reference(ws, symbol) {
        Some(inst) => match crate::hover::uri_for(ws, uris, &inst.file) {
            Some(u) => flat.push((u, inst.range)),
            None => {},
        },
        None => {},
    }
    let ghost first = locations_view(flat@);
    let located = reference_locations(ws, symbol, uris);
    let mut k: usize = 0;
    while k < located.len()
        invariant
            k <= located.len(),
            locations_view(flat@) == first + locations_view(located@).take(k as int),
        decreases located.len() - k,
    {
        let ghost before = locations_view(flat@);
        flat.push((located[k].0.clone(), located[k].1));
        assert(locations_view(flat@) =~= before.push(locations_view(located@)[k as int]));
        assert(locations_view(located@).take(k + 1) =~= locations_view(located@).take(k as int).push(
            locations_view(located@)[k as int],
        ));
        k = k + 1;
    }
    assert(locations_view(located@).take(k as int) =~= locations_view(located@));
    assert(locations_view(flat@) =~= rename_sites(ws@, uris_view(uris@), symbol@));
    group_sites(&flat)
}

// ---------- call hierarchy ----------

/// The kind of a symbol in the call hierarchy.
#[derive(Clone, Copy, Debug, PartialEq, Eq, Structural)]
pub enum SymbolSort {
    Variable,
    Class,
    File,
}

/// An item of the call hierarchy. `data` names what it stands for (`HubInstance`
/// or `HubType`) and its name, for the follow-up requests.
pub struct CallItem {
    pub name: String,
    pub kind: SymbolSort,
    pub detail: String,
    pub uri: String,
    pub range: LspRange,
    pub selection_range: LspRange,
    pub data: Option<(String, String)>,
}

/// The view of a call hierarchy item.
pub struct CallView {
    pub name: Seq<char>,
    pub kind: SymbolSort,
    pub detail: Seq<char>,
    pub uri: Seq<char>,
    pub range: LspRange,
    pub selection_range: LspRange,
    pub data: Option<(Seq<char>, Seq<char>)>,
}

impl View for CallItem {
    type V = CallView;

    open spec fn view(&self) -> CallView {
        CallView {
            name: self.name@,
            kind: self.kind,
            detail: self.detail@,
            uri: self.uri@,
            range: self.range,
            selection_range: self.selection_range,
            data: match self.data {
                Some(d) => Some((d.0@, d.1@)),
                None => None,
            },
        }
    }
}

impl CallItem {
    /// A copy of the item.
    pub fn copy(&self) -> (r: Self)
        ensures
            r@ == self@,
    {
        CallItem {
            name: self.name.clone(),
            kind: self.kind,
            detail: self.detail.clone(),
            uri: self.uri.clone(),
            range: self.range,
            selection_range: self.selection_range,
            data: match &self.data {
                Some(d) => Some((d.0.clone(), d.1.clone())),
                None => None,
            },
        }
    }
}

/// The item for an instance.
pub open spec fn instance_call(inst: InstanceView, name: Seq<char>, uri: Seq<char>) -> CallView {
    CallView {
        name,
        kind: SymbolSort::Variable,
        detail: "Hub Instance ("@ + inst.instance_type + ")"@,
        uri,
        range: inst.block_range,
        selection_range: inst.range,
        data: Some(("HubInstance"@, name)),
    }
}

/// The item for a hub type.
pub open spec fn type_call(t: TypeView, name: Seq<char>, uri: Seq<char>) -> CallView {
    CallView {
        name,
        kind: SymbolSort::Class,
        detail: "Hub Type"@,
        uri,
        range: t.block_range,
        selection_range: t.range,
        data: Some(("HubType"@, name)),
    }
}

fn make_instance_call(inst: &HubInstance, name: &String, uri: String) -> (r: CallItem)
    ensures
        r@ == instance_call(inst@, name@, uri@),
{
    let mut detail = owned("Hub Instance (");
    detail.append(inst.instance_type.as_str());
    detail.append(")");
    CallItem {
        name: name.clone(),
        kind: SymbolSort::Variable,
        detail,
        uri,
        range: inst.block_range,
        selection_range: inst.range,
        data: Some((owned("HubInstance"), name.clone())),
    }
}

fn make_type_call(t: &HubType, name: &String, uri: String) -> (r: CallItem)
    ensures
        r@ == type_call(t@, name@, uri@),
{
    CallItem {
        name: name.clone(),
        kind: SymbolSort::Class,
        detail: owned("Hub Type"),
        uri,
        range: t.block_range,
        selection_range: t.range,
        data: Some((owned("HubType"), name.clone())),
    }
}

/// The item the call hierarchy starts from for the symbol: the instance it
/// names, when its file has a link address; else the type it names as seen
/// from the requested file, when that type's file has one.
pub open spec fn call_root(
    ws: Seq<FileView>,
    uris: Seq<Option<Seq<char>>>,
    symbol: Seq<char>,
    path: Option<Seq<char>>,
) -> Option<CallView> {
    let as_type = match path {
        Some(p) => match resolve_type_at(ws, p, symbol) {
            Some(t) => match uri_of(ws, uris, t.file) {
                Some(u) => Some(type_call(t, symbol, u)),
                None => None,
            },
            None => None,
        },
        None => None,
    };
    match spec_resolve_reference(ws, symbol) {
        Some(inst) => match uri_of(ws, uris, inst.file) {
            Some(u) => Some(instance_call(inst, symbol, u)),
            None => as_type,
        },
        None => as_type,
    }
}

/// The call hierarchy item for `symbol` (see `call_root`), given a link
/// address (or none) for each file of the workspace.
pub fn prepare_call_hierarchy(
    ws: &Workspace,
    symbol: &String,
    path: &Option<String>,
    uris: &Vec<Option<String>>,
) -> (r: Option<CallItem>)
    ensures
        match r {
            Some(c) => call_root(ws@, uris_view(uris@), symbol@, opt_view(*path)) == Some(c@),
            None => call_root(ws@, uris_view(uris@), symbol@, opt_view(*path)) is None,
        },
{
    match resolve_reference(ws, symbol) {
        Some(inst) => match crate::hover::uri_for(ws, uris, &inst.file) {
            Some(u) => {
                return Some(make_instance_call(&inst, symbol, u));
            },
            None => {},
        },
        None => {},
    }
    match path {
        Some(p) => match resolve_type_at_path(ws, p, symbol) {
            Some(t) => match crate::hover::uri_for(ws, uris, &t.file) {
                Some(u) => Some(make_type_call(&t, symbol, u)),
                None => None,
            },
            None => None,
        },
        None => None,
    }
}

/// The part of a path after its last `/`.
pub open spec fn last_segment(p: Seq<char>) -> Seq<char> {
    match crate::completion::last_slash(p) {
        Some(i) => p.skip(i + 1),
        None => p,
    }
}

fn path_last_segment(p: &String) -> (r: String)
    ensures
        r@ == last_segment(p@),
{
    let v = crate::text::to_chars(p.as_str());
    let mut s = v.len();
    assert(v@.take(v@.len() as int) =~= v@);
    while s > 0 && v[s - 1] != '/'
        invariant
            s <= v.len(),
            v@ == p@,
            crate::completion::last_slash(p@) == crate::completion::last_slash(v@.take(s as int)),
        decreases s,
    {
        assert(v@.take(s as int).drop_last() =~= v@.take(s - 1));
        s = s - 1;
    }
    assert(v@.take(v@.len() as int) =~= v@);
    if s == 0 {
        assert(v@.take(0) =~= Seq::<char>::empty());
        return p.clone();
    }
    assert(v@.take(s as int).drop_last() =~= v@.take(s - 1));
    assert(v@.subrange(s as int, v@.len() as int) =~= v@.skip(s as int));
    crate::text::string_from_range(&v, s, v.len())
}

/// `pos` lies within `r`, both ends included.
pub open spec fn within(r: LspRange, pos: LspPosition) -> bool {
    &&& (pos.line > r.start.line || (pos.line == r.start.line && pos.character >= r.start.character))
    &&& (pos.line < r.end.line || (pos.line == r.end.line && pos.character <= r.end.character))
}

/// The first instance of `insts` whose block holds `pos`.
pub open spec fn enclosing_instance(insts: Seq<InstanceView>, pos: LspPosition) -> Option<InstanceView>
    decreases insts.len(),
{
    if insts.len() == 0 {
        None
    } else if within(insts[0].block_range, pos) {
        Some(insts[0])
    } else {
        enclosing_instance(insts.drop_first(), pos)
    }
}

/// The empty range at the start of a document.
pub open spec fn zero_range() -> LspRange {
    LspRange { start: LspPosition { line: 0, character: 0 }, end: LspPosition { line: 0, character: 0 } }
}

/// The caller a reference is made from: the instance of its HubGS file
/// whose block holds it; else its file, by the last segment of its path.
pub open spec fn caller_of(ws: Seq<FileView>, r: ReferenceView, uri: Seq<char>) -> CallView {
    let in_instance = if crate::text::spec_ends_with(r.file, ".hubgs"@) {
        match file_by_path(ws, r.file) {
            Some(f) => enclosing_instance(f.hubgs.instances, r.range.start),
            None => None,
        }
    } else {
        None
    };
    match in_instance {
        Some(inst) => {
            let c = instance_call(inst, inst.name, uri);
            if inst.block_range == zero_range() {
                CallView { selection_range: zero_range(), ..c }
            } else {
                c
            }
        },
        None => CallView {
            name: last_segment(r.file),
            kind: SymbolSort::File,
            detail: "File"@,
            uri,
            range: zero_range(),
            selection_range: zero_range(),
            data: None,
        },
    }
}

/// The calls into the instance `name`, before grouping: for each reference
/// to it whose file has a link address, its caller (keyed by the address
/// and the caller's name) and the reference's range.
pub open spec fn incoming_sites(
    ws: Seq<FileView>,
    uris: Seq<Option<Seq<char>>>,
    refs: Seq<ReferenceView>,
) -> Seq<(Seq<char>, (CallView, LspRange))>
    decreases refs.len(),
{
    if refs.len() == 0 {
        Seq::empty()
    } else {
        let r = refs.last();
        incoming_sites(ws, uris, refs.drop_last()) + match uri_of(ws, uris, r.file) {
            Some(u) => {
                let c = caller_of(ws, r, u);
                seq![(u + ":"@ + c.name, (c, r.range))]
            },
            None => Seq::empty(),
        }
    }
}

/// The instances of `insts` of the type `name` whose file has a link
/// address, each calling with its own range.
pub open spec fn instances_calling(
    ws: Seq<FileView>,
    uris: Seq<Option<Seq<char>>>,
    insts: Seq<InstanceView>,
    name: Seq<char>,
) -> Seq<(CallView, Seq<LspRange>)>
    decreases insts.len(),
{
    if insts.len() == 0 {
        Seq::empty()
    } else {
        let i = insts.last();
        instances_calling(ws, uris, insts.drop_last(), name) + if i.instance_type == name {
            match uri_of(ws, uris, i.file) {
                Some(u) => seq![(instance_call(i, i.name, u), seq![i.range])],
                None => Seq::empty(),
            }
        } else {
            Seq::empty()
        }
    }
}

/// The incoming calls of a call hierarchy item of kind `kind` named
/// `name`: for a type, its instances; for an instance, the callers of its
/// references grouped by address and caller name (in the order they first
/// come), each with the ranges of its references; none otherwise.
pub open spec fn incoming_calls_of(
    ws: Seq<FileView>,
    uris: Seq<Option<Seq<char>>>,
    kind: Seq<char>,
    name: Seq<char>,
) -> Seq<(CallView, Seq<LspRange>)> {
    if kind == "HubType"@ {
        instances_calling(ws, uris, all_instances_of(ws), name)
    } else if kind == "HubInstance"@ {
        let sites = incoming_sites(ws, uris, workspace_refs(ws, name));
        distinct_keys(sites).map_values(
            |k: Seq<char>| (values_under(sites, k)[0].0, values_under(sites, k).map_values(|v: (CallView, LspRange)| v.1)),
        )
    } else {
        Seq::empty()
    }
}

/// The views of call hierarchy results.
pub open spec fn calls_view(v: Seq<(CallItem, Vec<LspRange>)>) -> Seq<(CallView, Seq<LspRange>)> {
    v.map_values(|c: (CallItem, Vec<LspRange>)| (c.0@, c.1@))
}

pub(crate) fn enclosing_index(insts: &Vec<HubInstance>, pos: LspPosition) -> (r: Option<usize>)
    ensures
        match r {
            Some(i) => i < insts.len() && enclosing_instance(insts@.map_values(|x: HubInstance| x@), pos) == Some(
                insts@[i as int]@,
            ),
            None => enclosing_instance(insts@.map_values(|x: HubInstance| x@), pos) is None,
        },
{
    let ghost m = insts@.map_values(|x: HubInstance| x@);
    let mut i: usize = 0;
    assert(m.skip(0) =~= m);
    while i < insts.len()
        invariant
            i <= insts.len(),
            m == insts@.map_values(|x: HubInstance| x@),
            enclosing_instance(m, pos) == enclosing_instance(m.skip(i as int), pos),
        decreases insts.len() - i,
    {
        assert(m.skip(i as int).drop_first() =~= m.skip(i + 1));
        assert(m.skip(i as int)[0] == insts@[i as int]@);
        let b = insts[i].block_range;
        let after_start = pos.line > b.start.line || (pos.line == b.start.line && pos.character >= b.start.character);
        let before_end = pos.line < b.end.line || (pos.line == b.end.line && pos.character <= b.end.character);
        if after_start && before_end {
            return Some(i);
        }
        i = i + 1;
    }
    None
}

fn caller(ws: &Workspace, r: &HubReference, uri: String) -> (c: CallItem)
    ensures
        c@ == caller_of(ws@, r@, uri@),
{
    let mut found: Option<usize> = None;
    let mut fi: usize = 0;
    if crate::text::ends_with(r.file.as_str(), ".hubgs") {
        match file_index_by_path(ws, &r.file) {
            Some(i) => {
                assert(ws@[i as int] == ws.files@[i as int]@);
                fi = i;
                found = enclosing_index(&ws.files[i].hubgs.instances, r.range.start);
            },
            None => {},
        }
    }
    match found {
        Some(k) => {
            let inst = &ws.files[fi].hubgs.instances[k];
            let mut c = make_instance_call(inst, &inst.name, uri);
            let z = LspRange::zero();
            if inst.block_range == z {
                c.selection_range = z;
            }
            c
        },
        None => CallItem {
            name: path_last_segment(&r.file),
            kind: SymbolSort::File,
            detail: owned("File"),
            uri,
            range: LspRange::zero(),
            selection_range: LspRange::zero(),
            data: None,
        },
    }
}

/// The incoming calls (see `incoming_calls_of`), given a link address (or
/// none) for each file of the workspace.
pub fn incoming_calls(ws: &Workspace, kind: &str, name: &String, uris: &Vec<Option<String>>) -> (r: Vec<
    (CallItem, Vec<LspRange>),
>)
    ensures
        calls_view(r@) == incoming_calls_of(ws@, uris_view(uris@), kind@, name@),
{
    let ghost uv = uris_view(uris@);
    let mut out: Vec<(CallItem, Vec<LspRange>)> = Vec::new();
    if str_eq(kind, "HubType") {
        let all = all_hub_instances(ws);
        let ghost iv = all@.map_values(|i: HubInstance| i@);
        let mut k: usize = 0;
        assert(iv.take(0) =~= Seq::<InstanceView>::empty());
        while k < all.len()
            invariant
                k <= all.len(),
                iv == all@.map_values(|i: HubInstance| i@),
                iv == all_instances_of(ws@),
                uv == uris_view(uris@),
                calls_view(out@) == instances_calling(ws@, uv, iv.take(k as int), name@),
            decreases all.len() - k,
        {
            let inst = &all[k];
            assert(iv[k as int] == inst@);
            let ghost before = calls_view(out@);
            if inst.instance_type == *name {
                match crate::hover::uri_for(ws, uris, &inst.file) {
                    Some(u) => {
                        let c = make_instance_call(inst, &inst.name, u);
                        let mut rs: Vec<LspRange> = Vec::new();
                        rs.push(inst.range);
                        let ghost cv = c@;
                        out.push((c, rs));
                        assert(calls_view(out@) =~= before.push((cv, seq![inst@.range])));
                    },
                    None => {},
                }
            }
            assert(iv.take(k + 1).drop_last() =~= iv.take(k as int));
            assert(calls_view(out@) =~= instances_calling(ws@, uv, iv.take(k + 1), name@));
            k = k + 1;
        }
        assert(iv.take(k as int) =~= iv);
        return out;
    }
    if !str_eq(kind, "HubInstance") {
        return out;
    }
    // the sites, keyed by address and caller name
    let refs = find_all_references(ws, name);
    let ghost rv = refs_view(refs@);
    let mut keys: Vec<String> = Vec::new();
    let mut items: Vec<CallItem> = Vec::new();
    let mut ranges: Vec<LspRange> = Vec::new();
    let mut k: usize = 0;
    assert(rv.take(0) =~= Seq::<ReferenceView>::empty());
    while k < refs.len()
        invariant
            k <= refs.len(),
            rv == refs_view(refs@),
            uv == uris_view(uris@),
            keys.len() == items.len(),
            keys.len() == ranges.len(),
            incoming_sites(ws@, uv, rv.take(k as int)) == Seq::new(
                keys.len() as nat,
                |m: int| (keys@[m]@, (items@[m]@, ranges@[m])),
            ),
        decreases refs.len() - k,
    {
        let r = &refs[k];
        assert(rv[k as int] == r@);
        let ghost before = incoming_sites(ws@, uv, rv.take(k as int));
        match crate::hover::uri_for(ws, uris, &r.file) {
            Some(u) => {
                let c = caller(ws, r, u.clone());
                let mut key = u;
                key.append(":");
                key.append(c.name.as_str());
                keys.push(key);
                items.push(c);
                ranges.push(r.range);
            },
            None => {},
        }
        assert(rv.take(k + 1).drop_last() =~= rv.take(k as int));
        assert(incoming_sites(ws@, uv, rv.take(k + 1)) =~= Seq::new(
            keys.len() as nat,
            |m: int| (keys@[m]@, (items@[m]@, ranges@[m])),
        ));
        k = k + 1;
    }
    assert(rv.take(k as int) =~= rv);
    let ghost sites = incoming_sites(ws@, uv, rv);
    group_calls(&keys, &items, &ranges)
}

/// A key among the distinct keys has values.
pub proof fn lemma_key_has_values<E>(flat: Seq<(Seq<char>, E)>, k: Seq<char>)
    requires
        distinct_keys(flat).contains(k),
    ensures
        values_under(flat, k).len() > 0,
    decreases flat.len(),
{
    if flat.len() > 0 {
        let ks = distinct_keys(flat.drop_last());
        if ks.contains(k) {
            lemma_key_has_values(flat.drop_last(), k);
        } else {
            assert(!ks.contains(flat.last().0) ==> distinct_keys(flat) == ks.push(flat.last().0));
            if ks.contains(flat.last().0) {
                assert(distinct_keys(flat) == ks);
            } else {
                let i = choose|i: int| 0 <= i < distinct_keys(flat).len() && distinct_keys(flat)[i] == k;
                if i < ks.len() {
                    assert(ks[i] == k);
                }
                assert(flat.last().0 == k);
            }
        }
    }
}

fn group_calls(keys: &Vec<String>, items: &Vec<CallItem>, ranges: &Vec<LspRange>) -> (r: Vec<(CallItem, Vec<LspRange>)>)
    requires
        keys.len() == items.len(),
        keys.len() == ranges.len(),
    ensures
        ({
            let sites = Seq::new(keys.len() as nat, |m: int| (keys@[m]@, (items@[m]@, ranges@[m])));
            calls_view(r@) == distinct_keys(sites).map_values(
                |k: Seq<char>| (values_under(sites, k)[0].0, values_under(sites, k).map_values(|v: (CallView, LspRange)| v.1)),
            )
        }),
{
    let ghost sites = Seq::new(keys.len() as nat, |m: int| (keys@[m]@, (items@[m]@, ranges@[m])));
    // the distinct keys
    let mut dk: Vec<String> = Vec::new();
    let mut k: usize = 0;
    assert(sites.take(0) =~= Seq::<(Seq<char>, (CallView, LspRange))>::empty());
    while k < keys.len()
        invariant
            k <= keys.len(),
            sites == Seq::new(keys.len() as nat, |m: int| (keys@[m]@, (items@[m]@, ranges@[m]))),
            views(dk@) == distinct_keys(sites.take(k as int)),
        decreases keys.len() - k,
    {
        assert(sites.take(k + 1).drop_last() =~= sites.take(k as int));
        assert(sites.take(k + 1).last().0 == keys@[k as int]@);
        let key = &keys[k];
        let mut seen = false;
        let mut j: usize = 0;
        while j < dk.len()
            invariant
                j <= dk.len(),
                seen == exists|m: int| 0 <= m < j && #[trigger] dk@[m]@ == key@,
            decreases dk.len() - j,
        {
            if dk[j] == *key {
                seen = true;
            }
            j = j + 1;
        }
        assert(seen == views(dk@).contains(key@)) by {
            if seen {
                let m = choose|m: int| 0 <= m < dk.len() && #[trigger] dk@[m]@ == key@;
                assert(views(dk@)[m] == key@);
            }
            if views(dk@).contains(key@) {
                let m = choose|m: int| 0 <= m < views(dk@).len() && views(dk@)[m] == key@;
                assert(dk@[m]@ == key@);
            }
        }
        let ghost before = views(dk@);
        if !seen {
            dk.push(key.clone());
            assert(views(dk@) =~= before.push(key@));
        }
        k = k + 1;
    }
    assert(sites.take(k as int) =~= sites);
    let ghost kv = views(dk@);
    let mut out: Vec<(CallItem, Vec<LspRange>)> = Vec::new();
    let mut g: usize = 0;
    while g < dk.len()
        invariant
            g <= dk.len(),
            sites == Seq::new(keys.len() as nat, |m: int| (keys@[m]@, (items@[m]@, ranges@[m]))),
            keys.len() == items.len(),
            keys.len() == ranges.len(),
            kv == views(dk@),
            kv == distinct_keys(sites),
            calls_view(out@) == kv.take(g as int).map_values(
                |k: Seq<char>| (values_under(sites, k)[0].0, values_under(sites, k).map_values(|v: (CallView, LspRange)| v.1)),
            ),
        decreases dk.len() - g,
    {
        let key = &dk[g];
        assert(kv[g as int] == key@);
        proof {
            assert(kv.contains(key@));
            lemma_key_has_values(sites, key@);
        }
        let mut first: Option<CallItem> = None;
        let mut vals: Vec<LspRange> = Vec::new();
        let mut i: usize = 0;
        assert(sites.take(0) =~= Seq::<(Seq<char>, (CallView, LspRange))>::empty());
        while i < keys.len()
            invariant
                i <= keys.len(),
                keys.len() == items.len(),
                keys.len() == ranges.len(),
                sites == Seq::new(keys.len() as nat, |m: int| (keys@[m]@, (items@[m]@, ranges@[m]))),
                vals@ == values_under(sites.take(i as int), key@).map_values(|v: (CallView, LspRange)| v.1),
                match first {
                    Some(c) => values_under(sites.take(i as int), key@).len() > 0 && c@ == values_under(
                        sites.take(i as int),
                        key@,
                    )[0].0,
                    None => values_under(sites.take(i as int), key@).len() == 0,
                },
            decreases keys.len() - i,
        {
            assert(sites.take(i + 1).drop_last() =~= sites.take(i as int));
            assert(sites.take(i + 1).last() == (keys@[i as int]@, (items@[i as int]@, ranges@[i as int])));
            let ghost before = values_under(sites.take(i as int), key@);
            if keys[i] == *key {
                vals.push(ranges[i]);
                if first.is_none() {
                    first = Some(items[i].copy());
                }
                assert(values_under(sites.take(i + 1), key@) == before.push((items@[i as int]@, ranges@[i as int])));
                assert(values_under(sites.take(i + 1), key@).map_values(|v: (CallView, LspRange)| v.1) =~= before.map_values(
                    |v: (CallView, LspRange)| v.1,
                ).push(ranges@[i as int]));
            } else {
                assert(values_under(sites.take(i + 1), key@) =~= before);
            }
            i = i + 1;
        }
        assert(sites.take(i as int) =~= sites);
        let c = match first {
            Some(c) => c,
            None => {
                assert(false);
                items[0].copy()
            },
        };
        let ghost entry = (c@, vals@);
        let ghost before = calls_view(out@);
        out.push((c, vals));
        assert(calls_view(out@) =~= before.push(entry));
        assert(kv.take(g + 1) =~= kv.take(g as int).push(kv[g as int]));
        assert(kv.take(g + 1).map_values(
            |k: Seq<char>| (values_under(sites, k)[0].0, values_under(sites, k).map_values(|v: (CallView, LspRange)| v.1)),
        ) =~= kv.take(g as int).map_values(
            |k: Seq<char>| (values_under(sites, k)[0].0, values_under(sites, k).map_values(|v: (CallView, LspRange)| v.1)),
        ).push(entry));
        g = g + 1;
    }
    assert(kv.take(g as int) =~= kv);
    out
}

/// The outgoing calls of a call hierarchy item of kind `kind` named
/// `name`: for an instance, its type (seen from the instance's file), when
/// that type's file has a link address, called from the instance's range.
pub open spec fn outgoing_calls_of(
    ws: Seq<FileView>,
    uris: Seq<Option<Seq<char>>>,
    kind: Seq<char>,
    name: Seq<char>,
) -> Seq<(CallView, Seq<LspRange>)> {
    if kind == "HubInstance"@ {
        match spec_resolve_reference(ws, name) {
            Some(inst) => match resolve_type_at(ws, inst.file, inst.instance_type) {
                Some(t) => match uri_of(ws, uris, t.file) {
                    Some(u) => seq![(type_call(t, inst.instance_type, u), seq![inst.range])],
                    None => Seq::empty(),
                },
                None => Seq::empty(),
            },
            None => Seq::empty(),
        }
    } else {
        Seq::empty()
    }
}

/// The outgoing calls (see `outgoing_calls_of`), given a link address (or
/// none) for each file of the workspace.
pub fn outgoing_calls(ws: &Workspace, kind: &str, name: &String, uris: &Vec<Option<String>>) -> (r: Vec<
    (CallItem, Vec<LspRange>),
>)
    ensures
        calls_view(r@) == outgoing_calls_of(ws@, uris_view(uris@), kind@, name@),
{
    let mut out: Vec<(CallItem, Vec<LspRange>)> = Vec::new();
    if str_eq(kind, "HubInstance") {
        match resolve_reference(ws, name) {
            Some(inst) => match resolve_type_at_path(ws, &inst.file, &inst.instance_type) {
                Some(t) => match crate::hover::uri_for(ws, uris, &t.file) {
                    Some(u) => {
                        let c = make_type_call(&t, &inst.instance_type, u);
                        let mut rs: Vec<LspRange> = Vec::new();
                        rs.push(inst.range);
                        let ghost cv = c@;
                        out.push((c, rs));
                        assert(calls_view(out@) =~= seq![(cv, seq![inst@.range])]);
                    },
                    None => {},
                },
                None => {},
            },
            None => {},
        }
    }
    out
}

} // verus!

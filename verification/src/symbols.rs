//! Symbols: the hub instances and hub types of the whole workspace whose
//! names contain a query, and those declared in one document.
use vstd::prelude::*;

use crate::hover::{file_uris, uri_for, uri_of, uris_view};
use crate::model::{opt_view, FileView, HubInstance, HubType, InstanceView, TypeView, Workspace};
use crate::navigation::SymbolSort;
use crate::position::LspRange;
use crate::resolution::{all_hub_instances, all_hub_types, all_instances_of, all_types_of, file_by_path, file_index_by_path};
use crate::text::{ends_with, owned, spec_ends_with, to_chars};
use crate::validation::{lowercase_of, to_lowercase};

verus! {

/// A symbol: its name and sort, the document it lies in, its range there,
/// and the group it is listed under.
pub struct SymbolItem {
    pub name: String,
    pub kind: SymbolSort,
    pub uri: String,
    pub range: LspRange,
    pub container: String,
}

/// The view of a symbol.
pub struct SymbolItemView {
    pub name: Seq<char>,
    pub kind: SymbolSort,
    pub uri: Seq<char>,
    pub range: LspRange,
    pub container: Seq<char>,
}

impl View for SymbolItem {
    type V = SymbolItemView;

    open spec fn view(&self) -> SymbolItemView {
        SymbolItemView {
            name: self.name@,
            kind: self.kind,
            uri: self.uri@,
            range: self.range,
            container: self.container@,
        }
    }
}

/// The views of a sequence of symbols.
pub open spec fn symbols_view(v: Seq<SymbolItem>) -> Seq<SymbolItemView> {
    v.map_values(|s: SymbolItem| s@)
}

/// `t` occurs in `s` as a contiguous part.
pub open spec fn occurs_in(s: Seq<char>, t: Seq<char>) -> bool {
    exists|i: int| 0 <= i && i + t.len() <= s.len() && #[trigger] s.subrange(i, i + t.len()) == t
}

/// `name` matches `query` ignoring case: the lower-case query occurs in
/// the lower-case name.
pub open spec fn query_matches(name: Seq<char>, query: Seq<char>) -> bool {
    occurs_in(lowercase_of(name), lowercase_of(query))
}

/// The symbol of an instance, listed under `Instances`.
pub open spec fn instance_symbol(i: InstanceView, uri: Seq<char>) -> SymbolItemView {
    SymbolItemView { name: i.name, kind: SymbolSort::Variable, uri, range: i.range, container: "Instances"@ }
}

/// The symbol of a hub type, listed under `Types`.
pub open spec fn type_symbol(t: TypeView, uri: Seq<char>) -> SymbolItemView {
    SymbolItemView { name: t.name, kind: SymbolSort::Class, uri, range: t.range, container: "Types"@ }
}

/// The symbols of the instances `insts` that match `query` and whose file
/// has a link address in `uris`.
pub open spec fn matching_instances(
    ws: Seq<FileView>,
    uris: Seq<Option<Seq<char>>>,
    query: Seq<char>,
    insts: Seq<InstanceView>,
) -> Seq<SymbolItemView>
    decreases insts.len(),
{
    if insts.len() == 0 {
        Seq::empty()
    } else {
        let i = insts.last();
        matching_instances(ws, uris, query, insts.drop_last()) + if query_matches(i.name, query) {
            match uri_of(ws, uris, i.file) {
                Some(u) => seq![instance_symbol(i, u)],
                None => Seq::empty(),
            }
        } else {
            Seq::empty()
        }
    }
}

/// The symbols of the hub types `types` that match `query` and whose file
/// has a link address in `uris`.
pub open spec fn matching_types(
    ws: Seq<FileView>,
    uris: Seq<Option<Seq<char>>>,
    query: Seq<char>,
    types: Seq<TypeView>,
) -> Seq<SymbolItemView>
    decreases types.len(),
{
    if types.len() == 0 {
        Seq::empty()
    } else {
        let t = types.last();
        matching_types(ws, uris, query, types.drop_last()) + if query_matches(t.name, query) {
            match uri_of(ws, uris, t.file) {
                Some(u) => seq![type_symbol(t, u)],
                None => Seq::empty(),
            }
        } else {
            Seq::empty()
        }
    }
}

/// The workspace symbols for `query`: the matching instances, then the
/// matching hub types, where `uris` holds the link address of each file.
pub open spec fn workspace_symbols_of(
    ws: Seq<FileView>,
    uris: Seq<Option<Seq<char>>>,
    query: Seq<char>,
) -> Seq<SymbolItemView> {
    matching_instances(ws, uris, query, all_instances_of(ws)) + matching_types(ws, uris, query, all_types_of(ws))
}

/// Whether `t` occurs in `s`.
pub fn contains_text(s: &str, t: &str) -> (b: bool)
    ensures
        b == occurs_in(s@, t@),
{
    let sv = to_chars(s);
    let tv = to_chars(t);
    if tv.len() > sv.len() {
        return false;
    }
    let last = sv.len() - tv.len();
    let mut i: usize = 0;
    while i <= last
        invariant
            sv@ == s@,
            tv@ == t@,
            last == sv.len() - tv.len(),
            i <= last + 1,
            forall|j: int| 0 <= j < i ==> #[trigger] s@.subrange(j, j + t@.len()) != t@,
        decreases last + 1 - i,
    {
        let mut k: usize = 0;
        while k < tv.len() && sv[i + k] == tv[k]
            invariant
                sv@ == s@,
                tv@ == t@,
                i <= last,
                last == sv.len() - tv.len(),
                k <= tv.len(),
                forall|m: int| 0 <= m < k ==> sv@[i + m] == tv@[m],
            decreases tv.len() - k,
        {
            k = k + 1;
        }
        if k == tv.len() {
            assert(s@.subrange(i as int, i + t@.len()) =~= t@);
            return true;
        }
        assert(s@.subrange(i as int, i + t@.len())[k as int] != t@[k as int]);
        i = i + 1;
    }
    assert forall|j: int| 0 <= j && j + t@.len() <= s@.len() implies #[trigger] s@.subrange(j, j + t@.len()) != t@ by {
        assert(j < i);
    }
    false
}

fn push_symbol(out: &mut Vec<SymbolItem>, s: SymbolItem)
    ensures
        symbols_view(final(out)@) == symbols_view(old(out)@).push(s@),
{
    let ghost o0 = out@;
    let ghost v = s@;
    out.push(s);
    assert(symbols_view(out@) =~= symbols_view(o0).push(v));
}

/// The workspace symbols for `query` (see `workspace_symbols_of`), where
/// `uris` holds the link address of each file of the workspace.
pub fn workspace_symbols_with_uris(ws: &Workspace, query: &str, uris: &Vec<Option<String>>) -> (r: Vec<SymbolItem>)
    ensures
        symbols_view(r@) == workspace_symbols_of(ws@, uris_view(uris@), query@),
{
    let q = to_lowercase(query);
    let ghost u = uris_view(uris@);
    let mut out: Vec<SymbolItem> = Vec::new();
    let insts = all_hub_instances(ws);
    let ghost iv = insts@.map_values(|x: HubInstance| x@);
    let mut i: usize = 0;
    assert(symbols_view(out@) =~= Seq::<SymbolItemView>::empty());
    assert(iv.take(0) =~= Seq::<InstanceView>::empty());
    while i < insts.len()
        invariant
            i <= insts.len(),
            iv == insts@.map_values(|x: HubInstance| x@),
            iv == all_instances_of(ws@),
            q@ == lowercase_of(query@),
            u == uris_view(uris@),
            symbols_view(out@) == matching_instances(ws@, u, query@, iv.take(i as int)),
        decreases insts.len() - i,
    {
        let inst = &insts[i];
        assert(iv[i as int] == inst@);
        assert(iv.take(i + 1).drop_last() =~= iv.take(i as int));
        let lname = to_lowercase(inst.name.as_str());
        if contains_text(lname.as_str(), q.as_str()) {
            match uri_for(ws, uris, &inst.file) {
                Some(uri) => {
                    push_symbol(
                        &mut out,
                        SymbolItem {
                            name: inst.name.clone(),
                            kind: SymbolSort::Variable,
                            uri,
                            range: inst.range,
                            container: owned("Instances"),
                        },
                    );
                },
                None => {},
            }
        }
        i = i + 1;
    }
    assert(iv.take(i as int) =~= iv);
    let ghost mid = symbols_view(out@);
    let types = all_hub_types(ws);
    let ghost tv = types@.map_values(|x: HubType| x@);
    let mut j: usize = 0;
    assert(tv.take(0) =~= Seq::<TypeView>::empty());
    assert(mid + matching_types(ws@, u, query@, tv.take(0)) =~= mid);
    while j < types.len()
        invariant
            j <= types.len(),
            tv == types@.map_values(|x: HubType| x@),
            tv == all_types_of(ws@),
            q@ == lowercase_of(query@),
            u == uris_view(uris@),
            symbols_view(out@) == mid + matching_types(ws@, u, query@, tv.take(j as int)),
        decreases types.len() - j,
    {
        let t = &types[j];
        assert(tv[j as int] == t@);
        assert(tv.take(j + 1).drop_last() =~= tv.take(j as int));
        let ghost before = symbols_view(out@);
        let lname = to_lowercase(t.name.as_str());
        if contains_text(lname.as_str(), q.as_str()) {
            match uri_for(ws, uris, &t.file) {
                Some(uri) => {
                    push_symbol(
                        &mut out,
                        SymbolItem {
                            name: t.name.clone(),
                            kind: SymbolSort::Class,
                            uri,
                            range: t.range,
                            container: owned("Types"),
                        },
                    );
                },
                None => {},
            }
        }
        assert(symbols_view(out@) =~= mid + matching_types(ws@, u, query@, tv.take(j + 1)));
        j = j + 1;
    }
    assert(tv.take(j as int) =~= tv);
    out
}

/// The workspace symbols for `query`; each file's link address is its
/// `file:` URL, where it has one.
pub fn workspace_symbols(ws: &Workspace, query: &str) -> (r: Vec<SymbolItem>)
    ensures
        symbols_view(r@) == workspace_symbols_of(ws@, crate::hover::file_urls(ws@), query@),
{
    let uris = file_uris(ws);
    workspace_symbols_with_uris(ws, query, &uris)
}

/// The symbols of the document with path `path` and address `uri`: in a
/// HubGS file of the workspace, its instances and then its hub types;
/// nothing for another file of the workspace; none for a document outside
/// it.
pub open spec fn document_symbols_of(ws: Seq<FileView>, path: Seq<char>, uri: Seq<char>) -> Option<
    Seq<SymbolItemView>,
> {
    match file_by_path(ws, path) {
        Some(f) => Some(
            if spec_ends_with(path, ".hubgs"@) {
                f.hubgs.instances.map_values(|i: InstanceView| instance_symbol(i, uri)) + f.hubgs.types.map_values(
                    |t: TypeView| type_symbol(t, uri),
                )
            } else {
                Seq::empty()
            },
        ),
        None => None,
    }
}

/// The symbols of one document (see `document_symbols_of`).
pub fn document_symbols(ws: &Workspace, path: &String, uri: &str) -> (r: Option<Vec<SymbolItem>>)
    ensures
        match r {
            Some(v) => document_symbols_of(ws@, path@, uri@) == Some(symbols_view(v@)),
            None => document_symbols_of(ws@, path@, uri@) is None,
        },
{
    let fi = match file_index_by_path(ws, path) {
        Some(i) => i,
        None => {
            return None;
        },
    };
    let f = &ws.files[fi];
    assert(ws@[fi as int] == f@);
    let mut out: Vec<SymbolItem> = Vec::new();
    assert(symbols_view(out@) =~= Seq::<SymbolItemView>::empty());
    if !ends_with(path.as_str(), ".hubgs") {
        return Some(out);
    }
    let insts = &f.hubgs.instances;
    let ghost iv = insts@.map_values(|x: HubInstance| x@);
    let mut i: usize = 0;
    while i < insts.len()
        invariant
            i <= insts.len(),
            iv == insts@.map_values(|x: HubInstance| x@),
            symbols_view(out@) == iv.take(i as int).map_values(|x: InstanceView| instance_symbol(x, uri@)),
        decreases insts.len() - i,
    {
        let inst = &insts[i];
        assert(iv[i as int] == inst@);
        push_symbol(
            &mut out,
            SymbolItem {
                name: inst.name.clone(),
                kind: SymbolSort::Variable,
                uri: owned(uri),
                range: inst.range,
                container: owned("Instances"),
            },
        );
        assert(iv.take(i + 1).map_values(|x: InstanceView| instance_symbol(x, uri@)) =~= iv.take(i as int).map_values(
            |x: InstanceView| instance_symbol(x, uri@),
        ).push(instance_symbol(inst@, uri@)));
        i = i + 1;
    }
    assert(iv.take(i as int) =~= iv);
    let ghost mid = symbols_view(out@);
    let types = &f.hubgs.types;
    let ghost tv = types@.map_values(|x: HubType| x@);
    let mut j: usize = 0;
    assert(mid + tv.take(0).map_values(|x: TypeView| type_symbol(x, uri@)) =~= mid);
    while j < types.len()
        invariant
            j <= types.len(),
            tv == types@.map_values(|x: HubType| x@),
            symbols_view(out@) == mid + tv.take(j as int).map_values(|x: TypeView| type_symbol(x, uri@)),
        decreases types.len() - j,
    {
        let t = &types[j];
        assert(tv[j as int] == t@);
        push_symbol(
            &mut out,
            SymbolItem { name: t.name.clone(), kind: SymbolSort::Class, uri: owned(uri), range: t.range, container: owned("Types") },
        );
        assert(tv.take(j + 1).map_values(|x: TypeView| type_symbol(x, uri@)) =~= tv.take(j as int).map_values(
            |x: TypeView| type_symbol(x, uri@),
        ).push(type_symbol(t@, uri@)));
        j = j + 1;
    }
    assert(tv.take(j as int) =~= tv);
    Some(out)
}

} // verus!

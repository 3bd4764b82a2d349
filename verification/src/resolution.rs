//! Workspace-wide queries: everything the HubGS files define, name
//! resolution of instances and types (local and imported), and references.
use vstd::prelude::*;

use crate::model::{
    copy_strings, lemma_map_push, lemma_map_take_next, lemma_values_view_index, strings_view, value_view,
    values_view, AssignmentView, EnumView, FileView, GlobalField, GlobalFieldView, HubEnum, HubInstance,
    HubReference, HubStruct, HubType, HubValue, ImportView, InstanceView, ReferenceView, StructView,
    TypeView, ValueView, Workspace, WorkspaceFile,
};
use crate::position::LspRange;
use crate::text::{ends_with, spec_ends_with};

verus! {

/// Whether `path` names a HubGS file.
pub open spec fn is_hubgs(path: Seq<char>) -> bool {
    spec_ends_with(path, ".hubgs"@)
}

/// Whether `path` names a TWXML file.
pub open spec fn is_twxml(path: Seq<char>) -> bool {
    spec_ends_with(path, ".twxml"@)
}

/// Whether `path` names a HubGS file.
pub fn is_hubgs_path(path: &String) -> (b: bool)
    ensures
        b == is_hubgs(path@),
{
    ends_with(path.as_str(), ".hubgs")
}

/// Whether `path` names a TWXML file.
pub fn is_twxml_path(path: &String) -> (b: bool)
    ensures
        b == is_twxml(path@),
{
    ends_with(path.as_str(), ".twxml")
}

/// The hub types of the HubGS files of `ws`, file by file.
pub open spec fn all_types_of(ws: Seq<FileView>) -> Seq<TypeView>
    decreases ws.len(),
{
    if ws.len() == 0 {
        Seq::empty()
    } else {
        all_types_of(ws.drop_last()) + if is_hubgs(ws.last().path) { ws.last().hubgs.types } else { Seq::empty() }
    }
}

/// The hub instances of the HubGS files of `ws`, file by file.
pub open spec fn all_instances_of(ws: Seq<FileView>) -> Seq<InstanceView>
    decreases ws.len(),
{
    if ws.len() == 0 {
        Seq::empty()
    } else {
        all_instances_of(ws.drop_last()) + if is_hubgs(ws.last().path) { ws.last().hubgs.instances } else { Seq::empty() }
    }
}

/// The field declarations of the HubGS files of `ws`, file by file.
pub open spec fn all_global_fields_of(ws: Seq<FileView>) -> Seq<GlobalFieldView>
    decreases ws.len(),
{
    if ws.len() == 0 {
        Seq::empty()
    } else {
        all_global_fields_of(ws.drop_last()) + if is_hubgs(ws.last().path) { ws.last().hubgs.global_fields } else { Seq::empty() }
    }
}

/// The enums of the HubGS files of `ws`, file by file.
pub open spec fn all_enums_of(ws: Seq<FileView>) -> Seq<EnumView>
    decreases ws.len(),
{
    if ws.len() == 0 {
        Seq::empty()
    } else {
        all_enums_of(ws.drop_last()) + if is_hubgs(ws.last().path) { ws.last().hubgs.enums } else { Seq::empty() }
    }
}

/// The structs of the HubGS files of `ws`, file by file.
pub open spec fn all_structs_of(ws: Seq<FileView>) -> Seq<StructView>
    decreases ws.len(),
{
    if ws.len() == 0 {
        Seq::empty()
    } else {
        all_structs_of(ws.drop_last()) + if is_hubgs(ws.last().path) { ws.last().hubgs.structs } else { Seq::empty() }
    }
}

/// All hub types of the workspace.
pub fn all_hub_types(ws: &Workspace) -> (r: Vec<HubType>)
    ensures
        r@.map_values(|t: HubType| t@) == all_types_of(ws@),
{
    let mut r: Vec<HubType> = Vec::new();
    let mut i: usize = 0;
    while i < ws.files.len()
        invariant
            i <= ws.files.len(),
            r@.map_values(|t: HubType| t@) == all_types_of(ws@.take(i as int)),
        decreases ws.files.len() - i,
    {
        let f = &ws.files[i];
        let ghost base = r@.map_values(|t: HubType| t@);
        let hub = is_hubgs_path(&f.source.path);
        if hub {
            let mut j: usize = 0;
            while j < f.hubgs.types.len()
                invariant
                    j <= f.hubgs.types.len(),
                    r@.map_values(|t: HubType| t@) == base + f.hubgs.types@.take(j as int).map_values(|t: HubType| t@),
                decreases f.hubgs.types.len() - j,
            {
                let ghost r0 = r@;
                let x = f.hubgs.types[j].copy();
                r.push(x);
                proof {
                    lemma_map_push(r0, x, |t: HubType| t@);
                    lemma_map_take_next(f.hubgs.types@, j as int, |t: HubType| t@);
                }
                j = j + 1;
            }
            assert(f.hubgs.types@.take(j as int) =~= f.hubgs.types@);
        }
        proof {
            assert(ws@.take(i + 1).drop_last() =~= ws@.take(i as int));
            assert(ws@.take(i + 1).last() == f@);
            if !hub {
                assert(r@.map_values(|t: HubType| t@) =~= base + Seq::<TypeView>::empty());
            }
        }
        i = i + 1;
    }
    assert(ws@.take(ws.files.len() as int) =~= ws@);
    r
}

/// All hub instances of the workspace.
pub fn all_hub_instances(ws: &Workspace) -> (r: Vec<HubInstance>)
    ensures
        r@.map_values(|t: HubInstance| t@) == all_instances_of(ws@),
{
    let mut r: Vec<HubInstance> = Vec::new();
    let mut i: usize = 0;
    while i < ws.files.len()
        invariant
            i <= ws.files.len(),
            r@.map_values(|t: HubInstance| t@) == all_instances_of(ws@.take(i as int)),
        decreases ws.files.len() - i,
    {
        let f = &ws.files[i];
        let ghost base = r@.map_values(|t: HubInstance| t@);
        let hub = is_hubgs_path(&f.source.path);
        if hub {
            let mut j: usize = 0;
            while j < f.hubgs.instances.len()
                invariant
                    j <= f.hubgs.instances.len(),
                    r@.map_values(|t: HubInstance| t@) == base + f.hubgs.instances@.take(j as int).map_values(|t: HubInstance| t@),
                decreases f.hubgs.instances.len() - j,
            {
                let ghost r0 = r@;
                let x = f.hubgs.instances[j].copy();
                r.push(x);
                proof {
                    lemma_map_push(r0, x, |t: HubInstance| t@);
                    lemma_map_take_next(f.hubgs.instances@, j as int, |t: HubInstance| t@);
                }
                j = j + 1;
            }
            assert(f.hubgs.instances@.take(j as int) =~= f.hubgs.instances@);
        }
        proof {
            assert(ws@.take(i + 1).drop_last() =~= ws@.take(i as int));
            assert(ws@.take(i + 1).last() == f@);
            if !hub {
                assert(r@.map_values(|t: HubInstance| t@) =~= base + Seq::<InstanceView>::empty());
            }
        }
        i = i + 1;
    }
    assert(ws@.take(ws.files.len() as int) =~= ws@);
    r
}

/// All field declarations of the workspace.
pub fn all_global_fields(ws: &Workspace) -> (r: Vec<GlobalField>)
    ensures
        r@.map_values(|t: GlobalField| t@) == all_global_fields_of(ws@),
{
    let mut r: Vec<GlobalField> = Vec::new();
    let mut i: usize = 0;
    while i < ws.files.len()
        invariant
            i <= ws.files.len(),
            r@.map_values(|t: GlobalField| t@) == all_global_fields_of(ws@.take(i as int)),
        decreases ws.files.len() - i,
    {
        let f = &ws.files[i];
        let ghost base = r@.map_values(|t: GlobalField| t@);
        let hub = is_hubgs_path(&f.source.path);
        if hub {
            let mut j: usize = 0;
            while j < f.hubgs.global_fields.len()
                invariant
                    j <= f.hubgs.global_fields.len(),
                    r@.map_values(|t: GlobalField| t@) == base + f.hubgs.global_fields@.take(j as int).map_values(|t: GlobalField| t@),
                decreases f.hubgs.global_fields.len() - j,
            {
                let ghost r0 = r@;
                let x = f.hubgs.global_fields[j].copy();
                r.push(x);
                proof {
                    lemma_map_push(r0, x, |t: GlobalField| t@);
                    lemma_map_take_next(f.hubgs.global_fields@, j as int, |t: GlobalField| t@);
                }
                j = j + 1;
            }
            assert(f.hubgs.global_fields@.take(j as int) =~= f.hubgs.global_fields@);
        }
        proof {
            assert(ws@.take(i + 1).drop_last() =~= ws@.take(i as int));
            assert(ws@.take(i + 1).last() == f@);
            if !hub {
                assert(r@.map_values(|t: GlobalField| t@) =~= base + Seq::<GlobalFieldView>::empty());
            }
        }
        i = i + 1;
    }
    assert(ws@.take(ws.files.len() as int) =~= ws@);
    r
}

/// All enums of the workspace.
pub fn all_enums(ws: &Workspace) -> (r: Vec<HubEnum>)
    ensures
        r@.map_values(|t: HubEnum| t@) == all_enums_of(ws@),
{
    let mut r: Vec<HubEnum> = Vec::new();
    let mut i: usize = 0;
    while i < ws.files.len()
        invariant
            i <= ws.files.len(),
            r@.map_values(|t: HubEnum| t@) == all_enums_of(ws@.take(i as int)),
        decreases ws.files.len() - i,
    {
        let f = &ws.files[i];
        let ghost base = r@.map_values(|t: HubEnum| t@);
        let hub = is_hubgs_path(&f.source.path);
        if hub {
            let mut j: usize = 0;
            while j < f.hubgs.enums.len()
                invariant
                    j <= f.hubgs.enums.len(),
                    r@.map_values(|t: HubEnum| t@) == base + f.hubgs.enums@.take(j as int).map_values(|t: HubEnum| t@),
                decreases f.hubgs.enums.len() - j,
            {
                let ghost r0 = r@;
                let x = f.hubgs.enums[j].copy();
                r.push(x);
                proof {
                    lemma_map_push(r0, x, |t: HubEnum| t@);
                    lemma_map_take_next(f.hubgs.enums@, j as int, |t: HubEnum| t@);
                }
                j = j + 1;
            }
            assert(f.hubgs.enums@.take(j as int) =~= f.hubgs.enums@);
        }
        proof {
            assert(ws@.take(i + 1).drop_last() =~= ws@.take(i as int));
            assert(ws@.take(i + 1).last() == f@);
            if !hub {
                assert(r@.map_values(|t: HubEnum| t@) =~= base + Seq::<EnumView>::empty());
            }
        }
        i = i + 1;
    }
    assert(ws@.take(ws.files.len() as int) =~= ws@);
    r
}

/// All structs of the workspace.
pub fn all_structs(ws: &Workspace) -> (r: Vec<HubStruct>)
    ensures
        r@.map_values(|t: HubStruct| t@) == all_structs_of(ws@),
{
    let mut r: Vec<HubStruct> = Vec::new();
    let mut i: usize = 0;
    while i < ws.files.len()
        invariant
            i <= ws.files.len(),
            r@.map_values(|t: HubStruct| t@) == all_structs_of(ws@.take(i as int)),
        decreases ws.files.len() - i,
    {
        let f = &ws.files[i];
        let ghost base = r@.map_values(|t: HubStruct| t@);
        let hub = is_hubgs_path(&f.source.path);
        if hub {
            let mut j: usize = 0;
            while j < f.hubgs.structs.len()
                invariant
                    j <= f.hubgs.structs.len(),
                    r@.map_values(|t: HubStruct| t@) == base + f.hubgs.structs@.take(j as int).map_values(|t: HubStruct| t@),
                decreases f.hubgs.structs.len() - j,
            {
                let ghost r0 = r@;
                let x = f.hubgs.structs[j].copy();
                r.push(x);
                proof {
                    lemma_map_push(r0, x, |t: HubStruct| t@);
                    lemma_map_take_next(f.hubgs.structs@, j as int, |t: HubStruct| t@);
                }
                j = j + 1;
            }
            assert(f.hubgs.structs@.take(j as int) =~= f.hubgs.structs@);
        }
        proof {
            assert(ws@.take(i + 1).drop_last() =~= ws@.take(i as int));
            assert(ws@.take(i + 1).last() == f@);
            if !hub {
                assert(r@.map_values(|t: HubStruct| t@) =~= base + Seq::<StructView>::empty());
            }
        }
        i = i + 1;
    }
    assert(ws@.take(ws.files.len() as int) =~= ws@);
    r
}

// ---------- lookups by name ----------

/// The first instance of `s` named `name`.
pub open spec fn first_instance_named(s: Seq<InstanceView>, name: Seq<char>) -> Option<InstanceView>
    decreases s.len(),
{
    if s.len() == 0 {
        None
    } else if s[0].name == name {
        Some(s[0])
    } else {
        first_instance_named(s.drop_first(), name)
    }
}

/// The first type of `s` named `name`.
pub open spec fn lookup_type(s: Seq<TypeView>, name: Seq<char>) -> Option<TypeView>
    decreases s.len(),
{
    if s.len() == 0 {
        None
    } else if s[0].name == name {
        Some(s[0])
    } else {
        lookup_type(s.drop_first(), name)
    }
}

/// `i` is the first index of `s` holding a type named `name`.
pub open spec fn is_first_type_index(s: Seq<TypeView>, name: Seq<char>, i: int) -> bool {
    0 <= i < s.len() && s[i].name == name && forall|j: int| 0 <= j < i ==> s[j].name != name
}

/// `lookup_type` finds the element at the first index with the name.
pub proof fn lemma_lookup_type(s: Seq<TypeView>, name: Seq<char>)
    ensures
        lookup_type(s, name) is None <==> forall|j: int| 0 <= j < s.len() ==> s[j].name != name,
        forall|i: int| is_first_type_index(s, name, i) ==> lookup_type(s, name) == Some(s[i]),
        lookup_type(s, name) matches Some(t) ==> t.name == name && exists|i: int| is_first_type_index(s, name, i) && s[i] == t,
    decreases s.len(),
{
    if s.len() > 0 {
        lemma_lookup_type(s.drop_first(), name);
        let d = s.drop_first();
        if s[0].name != name {
            assert forall|i: int| is_first_type_index(s, name, i) implies lookup_type(s, name) == Some(s[i]) by {
                assert(is_first_type_index(d, name, i - 1));
            }
            if lookup_type(s, name) is Some {
                let i = choose|i: int| is_first_type_index(d, name, i) && d[i] == lookup_type(d, name)->0;
                assert forall|j: int| 0 <= j < i + 1 implies s[j].name != name by {
                    if j > 0 {
                        assert(s[j] == d[j - 1]);
                    }
                }
                assert(s[i + 1] == d[i]);
                assert(is_first_type_index(s, name, i + 1));
            }
            if forall|j: int| 0 <= j < d.len() ==> d[j].name != name {
                assert forall|j: int| 0 <= j < s.len() implies s[j].name != name by {
                    if j > 0 {
                        assert(s[j] == d[j - 1]);
                    }
                }
            } else {
                let j = choose|j: int| 0 <= j < d.len() && d[j].name == name;
                assert(s[j + 1].name == name);
            }
        } else {
            assert(is_first_type_index(s, name, 0));
            assert forall|i: int| is_first_type_index(s, name, i) implies lookup_type(s, name) == Some(s[i]) by {
                if i > 0 {
                    assert(s[0].name != name);
                }
            }
        }
    }
}

/// Index of the first type of `types` named `name`.
pub fn find_type_index(types: &Vec<HubType>, name: &String) -> (r: Option<usize>)
    ensures
        match r {
            Some(i) => is_first_type_index(types@.map_values(|t: HubType| t@), name@, i as int),
            None => forall|j: int| 0 <= j < types@.len() ==> types@[j].name@ != name@,
        },
{
    let ghost v = types@.map_values(|t: HubType| t@);
    let mut i: usize = 0;
    while i < types.len()
        invariant
            i <= types.len(),
            v == types@.map_values(|t: HubType| t@),
            forall|j: int| 0 <= j < i ==> types@[j].name@ != name@,
        decreases types.len() - i,
    {
        if types[i].name == *name {
            assert forall|j: int| 0 <= j < i implies v[j].name != name@ by {
                assert(v[j] == types@[j]@);
            }
            return Some(i);
        }
        i = i + 1;
    }
    None
}

/// The view of an optional instance.
pub open spec fn opt_instance_view(o: Option<HubInstance>) -> Option<InstanceView> {
    match o {
        Some(x) => Some(x@),
        None => None,
    }
}

/// The view of an optional hub type.
pub open spec fn opt_type_view(o: Option<HubType>) -> Option<TypeView> {
    match o {
        Some(x) => Some(x@),
        None => None,
    }
}

/// The instance a reference `name` resolves to: the first instance of that
/// name in the workspace.
pub open spec fn spec_resolve_reference(ws: Seq<FileView>, name: Seq<char>) -> Option<InstanceView> {
    first_instance_named(all_instances_of(ws), name)
}

/// Resolves a reference to the first instance with that name.
pub fn resolve_reference(ws: &Workspace, name: &String) -> (r: Option<HubInstance>)
    ensures
        opt_instance_view(r) == spec_resolve_reference(ws@, name@),
{
    let all = all_hub_instances(ws);
    let ghost v = all@.map_values(|t: HubInstance| t@);
    let mut i: usize = 0;
    assert(v.skip(0) =~= v);
    while i < all.len()
        invariant
            i <= all.len(),
            v == all@.map_values(|t: HubInstance| t@),
            v == all_instances_of(ws@),
            first_instance_named(v, name@) == first_instance_named(v.skip(i as int), name@),
        decreases all.len() - i,
    {
        assert(v.skip(i as int).drop_first() =~= v.skip(i + 1));
        assert(v.skip(i as int)[0] == all@[i as int]@);
        if all[i].name == *name {
            return Some(all[i].copy());
        }
        i = i + 1;
    }
    None
}

/// The first file of `ws` whose path ends with `suffix`.
pub open spec fn first_file_ending(ws: Seq<FileView>, suffix: Seq<char>) -> Option<FileView>
    decreases ws.len(),
{
    if ws.len() == 0 {
        None
    } else if spec_ends_with(ws[0].path, suffix) {
        Some(ws[0])
    } else {
        first_file_ending(ws.drop_first(), suffix)
    }
}

/// The first file of `ws` with exactly the path `path`.
pub open spec fn file_by_path(ws: Seq<FileView>, path: Seq<char>) -> Option<FileView>
    decreases ws.len(),
{
    if ws.len() == 0 {
        None
    } else if ws[0].path == path {
        Some(ws[0])
    } else {
        file_by_path(ws.drop_first(), path)
    }
}

/// The types of `types` whose names are listed in `names`, in order.
pub open spec fn types_named_in(types: Seq<TypeView>, names: Seq<Seq<char>>) -> Seq<TypeView>
    decreases types.len(),
{
    if types.len() == 0 {
        Seq::empty()
    } else {
        types_named_in(types.drop_last(), names) + if names.contains(types.last().name) {
            seq![types.last()]
        } else {
            Seq::empty()
        }
    }
}

/// The types an import brings: those it names, from the first workspace
/// file whose path ends with the import's path.
pub open spec fn import_types(ws: Seq<FileView>, imp: ImportView) -> Seq<TypeView> {
    match first_file_ending(ws, imp.from) {
        Some(ff) => types_named_in(ff.hubgs.types, imp.types),
        None => Seq::empty(),
    }
}

/// The types brought by a list of imports, import by import.
pub open spec fn imported_types(ws: Seq<FileView>, imps: Seq<ImportView>) -> Seq<TypeView>
    decreases imps.len(),
{
    if imps.len() == 0 {
        Seq::empty()
    } else {
        imported_types(ws, imps.drop_last()) + import_types(ws, imps.last())
    }
}

/// The types visible in file `f`: its own, then the imported ones.
pub open spec fn visible_of(ws: Seq<FileView>, f: FileView) -> Seq<TypeView> {
    f.hubgs.types + imported_types(ws, f.hubgs.imports)
}

/// The type named `name` as seen from file `f`.
pub open spec fn spec_resolve_type(ws: Seq<FileView>, f: FileView, name: Seq<char>) -> Option<TypeView> {
    lookup_type(visible_of(ws, f), name)
}

/// The type named `name` as seen from the file with path `path`.
pub open spec fn resolve_type_at(ws: Seq<FileView>, path: Seq<char>, name: Seq<char>) -> Option<TypeView> {
    match file_by_path(ws, path) {
        Some(f) => spec_resolve_type(ws, f, name),
        None => None,
    }
}

fn first_file_ending_index(ws: &Workspace, suffix: &String) -> (r: Option<usize>)
    ensures
        match r {
            Some(i) => i < ws.files.len() && first_file_ending(ws@, suffix@) == Some(ws@[i as int]),
            None => first_file_ending(ws@, suffix@) is None,
        },
{
    let mut i: usize = 0;
    assert(ws@.skip(0) =~= ws@);
    while i < ws.files.len()
        invariant
            i <= ws.files.len(),
            first_file_ending(ws@, suffix@) == first_file_ending(ws@.skip(i as int), suffix@),
        decreases ws.files.len() - i,
    {
        assert(ws@.skip(i as int).drop_first() =~= ws@.skip(i + 1));
        assert(ws@.skip(i as int)[0] == ws@[i as int]);
        if ends_with(ws.files[i].source.path.as_str(), suffix.as_str()) {
            return Some(i);
        }
        i = i + 1;
    }
    None
}

/// Index of the first file of `ws` with exactly the path `path`.
pub fn file_index_by_path(ws: &Workspace, path: &String) -> (r: Option<usize>)
    ensures
        match r {
            Some(i) => i < ws.files.len() && file_by_path(ws@, path@) == Some(ws@[i as int]),
            None => file_by_path(ws@, path@) is None,
        },
{
    let mut i: usize = 0;
    assert(ws@.skip(0) =~= ws@);
    while i < ws.files.len()
        invariant
            i <= ws.files.len(),
            file_by_path(ws@, path@) == file_by_path(ws@.skip(i as int), path@),
        decreases ws.files.len() - i,
    {
        assert(ws@.skip(i as int).drop_first() =~= ws@.skip(i + 1));
        assert(ws@.skip(i as int)[0] == ws@[i as int]);
        if ws.files[i].source.path == *path {
            return Some(i);
        }
        i = i + 1;
    }
    None
}

fn contains_string(v: &Vec<String>, s: &String) -> (b: bool)
    ensures
        b == strings_view(v@).contains(s@),
{
    let mut i: usize = 0;
    while i < v.len()
        invariant
            i <= v.len(),
            forall|j: int| 0 <= j < i ==> v@[j]@ != s@,
        decreases v.len() - i,
    {
        if v[i] == *s {
            assert(strings_view(v@)[i as int] == s@);
            return true;
        }
        i = i + 1;
    }
    assert(!strings_view(v@).contains(s@)) by {
        if strings_view(v@).contains(s@) {
            let j = choose|j: int| 0 <= j < strings_view(v@).len() && strings_view(v@)[j] == s@;
            assert(v@[j]@ == s@);
        }
    }
    false
}

/// The types visible in `file`: its own types, then for each import the
/// named types of the first workspace file whose path ends with the
/// import's path.
pub fn visible_types(ws: &Workspace, file: &WorkspaceFile) -> (r: Vec<HubType>)
    ensures
        r@.map_values(|t: HubType| t@) == visible_of(ws@, file@),
{
    let mut r: Vec<HubType> = Vec::new();
    let mut j: usize = 0;
    while j < file.hubgs.types.len()
        invariant
            j <= file.hubgs.types.len(),
            r@.map_values(|t: HubType| t@) == file.hubgs.types@.take(j as int).map_values(|t: HubType| t@),
        decreases file.hubgs.types.len() - j,
    {
        let ghost r0 = r@;
        let x = file.hubgs.types[j].copy();
        r.push(x);
        proof {
            lemma_map_push(r0, x, |t: HubType| t@);
            lemma_map_take_next(file.hubgs.types@, j as int, |t: HubType| t@);
        }
        j = j + 1;
    }
    assert(file.hubgs.types@.take(j as int) =~= file.hubgs.types@);
    let ghost imps = file.hubgs.imports@.map_values(|x: crate::model::HubImport| x@);
    let mut k: usize = 0;
    assert(imps.take(0) =~= Seq::<ImportView>::empty());
    assert(file@.hubgs.types + Seq::<TypeView>::empty() =~= file@.hubgs.types);
    while k < file.hubgs.imports.len()
        invariant
            k <= file.hubgs.imports.len(),
            imps == file.hubgs.imports@.map_values(|x: crate::model::HubImport| x@),
            imps == file@.hubgs.imports,
            r@.map_values(|t: HubType| t@) == file@.hubgs.types + imported_types(ws@, imps.take(k as int)),
        decreases file.hubgs.imports.len() - k,
    {
        let imp = &file.hubgs.imports[k];
        let ghost base = r@.map_values(|t: HubType| t@);
        assert(imps.take(k + 1).drop_last() =~= imps.take(k as int));
        assert(imps.take(k + 1).last() == imp@);
        match first_file_ending_index(ws, &imp.from) {
            Some(fi) => {
                let ff = &ws.files[fi];
                let mut m: usize = 0;
                let ghost ftypes = ff@.hubgs.types;
                while m < ff.hubgs.types.len()
                    invariant
                        m <= ff.hubgs.types.len(),
                        ftypes == ff.hubgs.types@.map_values(|t: HubType| t@),
                        r@.map_values(|t: HubType| t@) == base + types_named_in(ftypes.take(m as int), imp@.types),
                    decreases ff.hubgs.types.len() - m,
                {
                    let ghost r0 = r@;
                    assert(ftypes.take(m + 1).drop_last() =~= ftypes.take(m as int));
                    assert(ftypes.take(m + 1).last() == ff.hubgs.types@[m as int]@);
                    if contains_string(&imp.types, &ff.hubgs.types[m].name) {
                        let x = ff.hubgs.types[m].copy();
                        r.push(x);
                        proof {
                            lemma_map_push(r0, x, |t: HubType| t@);
                        }
                        assert(r@.map_values(|t: HubType| t@) =~= base + types_named_in(ftypes.take(m + 1), imp@.types));
                    } else {
                        assert(r@.map_values(|t: HubType| t@) =~= base + types_named_in(ftypes.take(m + 1), imp@.types));
                    }
                    m = m + 1;
                }
                assert(ftypes.take(m as int) =~= ftypes);
            },
            None => {
                assert(r@.map_values(|t: HubType| t@) =~= base + import_types(ws@, imp@));
            },
        }
        assert(r@.map_values(|t: HubType| t@) =~= file@.hubgs.types + imported_types(ws@, imps.take(k + 1)));
        k = k + 1;
    }
    assert(imps.take(k as int) =~= imps);
    r
}

/// Resolves the type named `name` as seen from `file`.
pub fn resolve_type(ws: &Workspace, file: &WorkspaceFile, name: &String) -> (r: Option<HubType>)
    ensures
        opt_type_view(r) == spec_resolve_type(ws@, file@, name@),
{
    let vis = visible_types(ws, file);
    proof {
        lemma_lookup_type(vis@.map_values(|t: HubType| t@), name@);
    }
    match find_type_index(&vis, name) {
        Some(i) => Some(vis[i].copy()),
        None => {
            proof {
                let v = vis@.map_values(|t: HubType| t@);
                assert forall|j: int| 0 <= j < v.len() implies v[j].name != name@ by {
                    assert(v[j] == vis@[j]@);
                }
            }
            None
        },
    }
}

/// Resolves the type named `name` as seen from the file with path `path`.
pub fn resolve_type_at_path(ws: &Workspace, path: &String, name: &String) -> (r: Option<HubType>)
    ensures
        opt_type_view(r) == resolve_type_at(ws@, path@, name@),
{
    match file_index_by_path(ws, path) {
        Some(i) => resolve_type(ws, &ws.files[i], name),
        None => None,
    }
}

} // verus!

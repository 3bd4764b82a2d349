//! Code lenses, inlay hints and the quick fixes offered on a reviewed hub
//! reference.
use vstd::prelude::*;

use crate::edits::{EditView, FormatEdit};
use crate::hover::{get_range_text, range_ordered, range_text};
use crate::model::{
    opt_view, FileView, HubInstance, HubReference, HubType, HubValue, InstanceView, ReferenceView, TypeView, Workspace,
    WorkspaceFile,
};
use crate::twxml_rules::{computed_at, computed_view};
use crate::position::{LspPosition, LspRange};
use crate::references::{display_of, display_value, find_all_references, workspace_refs};
use crate::resolution::{
    all_hub_instances, all_instances_of, file_by_path, file_index_by_path, resolve_reference, spec_resolve_reference,
};
use crate::text::{decimal, ends_with, owned, spec_decimal, spec_ends_with};

verus! {

/// A code lens: a range and the command shown on it, with its title.
pub struct Lens {
    pub range: LspRange,
    pub title: String,
    pub command: String,
}

/// The view of a code lens.
pub struct LensView {
    pub range: LspRange,
    pub title: Seq<char>,
    pub command: Seq<char>,
}

impl View for Lens {
    type V = LensView;

    open spec fn view(&self) -> LensView {
        LensView { range: self.range, title: self.title@, command: self.command@ }
    }
}

/// The views of a sequence of lenses.
pub open spec fn lenses_view(v: Seq<Lens>) -> Seq<LensView> {
    v.map_values(|l: Lens| l@)
}

/// `n` and a noun, in the plural unless `n` is one.
pub open spec fn counted(n: nat, noun: Seq<char>) -> Seq<char> {
    spec_decimal(n) + " "@ + noun + if n == 1 { ""@ } else { "s"@ }
}

/// How many instances of `insts` are of the type `name`.
pub open spec fn count_of_type(insts: Seq<InstanceView>, name: Seq<char>) -> nat
    decreases insts.len(),
{
    if insts.len() == 0 {
        0
    } else {
        count_of_type(insts.drop_last(), name) + if insts.last().instance_type == name { 1nat } else { 0nat }
    }
}

/// The lenses of a HubGS file: on each instance, how many references it
/// has; on each type, how many instances.
pub open spec fn hubgs_lenses(ws: Seq<FileView>, f: FileView) -> Seq<LensView> {
    f.hubgs.instances.map_values(
        |i: InstanceView|
            LensView {
                range: i.range,
                title: counted(workspace_refs(ws, i.name).len(), "reference"@),
                command: "editor.action.findReferences"@,
            },
    ) + f.hubgs.types.map_values(
        |t: TypeView|
            LensView {
                range: t.range,
                title: counted(count_of_type(all_instances_of(ws), t.name), "instance"@),
                command: "editor.action.goToImplementation"@,
            },
    )
}

/// The lenses of a TWXML file: one on each of its hub references.
pub open spec fn twxml_lenses(f: FileView) -> Seq<LensView> {
    f.references.map_values(
        |r: ReferenceView|
            LensView { range: r.range, title: "Go to definition"@, command: "editor.action.goToDeclaration"@ },
    )
}

/// The lenses of the workspace file with path `path` (when the request
/// names a file): by its type, HubGS or TWXML; none otherwise.
pub open spec fn lenses_of(ws: Seq<FileView>, path: Option<Seq<char>>) -> Option<Seq<LensView>> {
    match path {
        Some(p) => match file_by_path(ws, p) {
            Some(f) => if spec_ends_with(p, ".hubgs"@) {
                Some(hubgs_lenses(ws, f))
            } else if spec_ends_with(p, ".twxml"@) {
                Some(twxml_lenses(f))
            } else {
                None
            },
            None => None,
        },
        None => None,
    }
}

fn counted_text(n: usize, noun: &str) -> (r: String)
    ensures
        r@ == counted(n as nat, noun@),
{
    let mut t = decimal(n as u64);
    t.append(" ");
    t.append(noun);
    if n != 1 {
        t.append("s");
    }
    proof {
        reveal_strlit("");
        assert(t@ =~= counted(n as nat, noun@));
    }
    t
}

fn instances_of_type_count(all: &Vec<HubInstance>, name: &String) -> (n: usize)
    ensures
        n == count_of_type(all@.map_values(|i: HubInstance| i@), name@),
{
    let ghost iv = all@.map_values(|i: HubInstance| i@);
    let mut n: usize = 0;
    let mut k: usize = 0;
    assert(iv.take(0) =~= Seq::<InstanceView>::empty());
    while k < all.len()
        invariant
            k <= all.len(),
            iv == all@.map_values(|i: HubInstance| i@),
            n == count_of_type(iv.take(k as int), name@),
            n <= k,
        decreases all.len() - k,
    {
        assert(iv.take(k + 1).drop_last() =~= iv.take(k as int));
        assert(iv[k as int] == all@[k as int]@);
        if all[k].instance_type == *name {
            n = n + 1;
        }
        k = k + 1;
    }
    assert(iv.take(k as int) =~= iv);
    n
}

/// The code lenses of the file with path `path` (see `lenses_of`).
pub fn code_lens(ws: &Workspace, path: &Option<String>) -> (r: Option<Vec<Lens>>)
    ensures
        match r {
            Some(v) => lenses_of(ws@, opt_view(*path)) == Some(lenses_view(v@)),
            None => lenses_of(ws@, opt_view(*path)) is None,
        },
{
    let p = match path {
        Some(p) => p,
        None => {
            return None;
        },
    };
    let i = match file_index_by_path(ws, p) {
        Some(i) => i,
        None => {
            return None;
        },
    };
    let f = &ws.files[i];
    assert(ws@[i as int] == f@);
    let mut out: Vec<Lens> = Vec::new();
    if ends_with(p.as_str(), ".hubgs") {
        let insts = &f.hubgs.instances;
        let ghost iv = insts@.map_values(|x: HubInstance| x@);
        let mut k: usize = 0;
        while k < insts.len()
            invariant
                k <= insts.len(),
                iv == insts@.map_values(|x: HubInstance| x@),
                lenses_view(out@) == iv.take(k as int).map_values(
                    |i: InstanceView|
                        LensView {
                            range: i.range,
                            title: counted(workspace_refs(ws@, i.name).len(), "reference"@),
                            command: "editor.action.findReferences"@,
                        },
                ),
            decreases insts.len() - k,
        {
            assert(iv[k as int] == insts@[k as int]@);
            let refs = find_all_references(ws, &insts[k].name);
            assert(crate::references::refs_view(refs@).len() == refs@.len());
            let lens = Lens {
                range: insts[k].range,
                title: counted_text(refs.len(), "reference"),
                command: owned("editor.action.findReferences"),
            };
            let ghost lv = lens@;
            let ghost before = lenses_view(out@);
            out.push(lens);
            assert(lenses_view(out@) =~= before.push(lv));
            assert(iv.take(k + 1).map_values(
                |i: InstanceView|
                    LensView {
                        range: i.range,
                        title: counted(workspace_refs(ws@, i.name).len(), "reference"@),
                        command: "editor.action.findReferences"@,
                    },
            ) =~= iv.take(k as int).map_values(
                |i: InstanceView|
                    LensView {
                        range: i.range,
                        title: counted(workspace_refs(ws@, i.name).len(), "reference"@),
                        command: "editor.action.findReferences"@,
                    },
            ).push(lv));
            assert(lenses_view(out@) =~= iv.take(k + 1).map_values(
                |i: InstanceView|
                    LensView {
                        range: i.range,
                        title: counted(workspace_refs(ws@, i.name).len(), "reference"@),
                        command: "editor.action.findReferences"@,
                    },
            ));
            k = k + 1;
        }
        assert(iv.take(k as int) =~= iv);
        let ghost mid = lenses_view(out@);
        let all = all_hub_instances(ws);
        let types = &f.hubgs.types;
        let ghost tv = types@.map_values(|x: HubType| x@);
        let mut j: usize = 0;
        while j < types.len()
            invariant
                j <= types.len(),
                tv == types@.map_values(|x: HubType| x@),
                all@.map_values(|i: HubInstance| i@) == all_instances_of(ws@),
                lenses_view(out@) == mid + tv.take(j as int).map_values(
                    |t: TypeView|
                        LensView {
                            range: t.range,
                            title: counted(count_of_type(all_instances_of(ws@), t.name), "instance"@),
                            command: "editor.action.goToImplementation"@,
                        },
                ),
            decreases types.len() - j,
        {
            assert(tv[j as int] == types@[j as int]@);
            let n = instances_of_type_count(&all, &types[j].name);
            let lens = Lens {
                range: types[j].range,
                title: counted_text(n, "instance"),
                command: owned("editor.action.goToImplementation"),
            };
            let ghost lv = lens@;
            let ghost before = lenses_view(out@);
            out.push(lens);
            assert(lenses_view(out@) =~= before.push(lv));
            assert(tv.take(j + 1).map_values(
                |t: TypeView|
                    LensView {
                        range: t.range,
                        title: counted(count_of_type(all_instances_of(ws@), t.name), "instance"@),
                        command: "editor.action.goToImplementation"@,
                    },
            ) =~= tv.take(j as int).map_values(
                |t: TypeView|
                    LensView {
                        range: t.range,
                        title: counted(count_of_type(all_instances_of(ws@), t.name), "instance"@),
                        command: "editor.action.goToImplementation"@,
                    },
            ).push(lv));
            assert(lenses_view(out@) =~= mid + tv.take(j + 1).map_values(
                |t: TypeView|
                    LensView {
                        range: t.range,
                        title: counted(count_of_type(all_instances_of(ws@), t.name), "instance"@),
                        command: "editor.action.goToImplementation"@,
                    },
            ));
            j = j + 1;
        }
        assert(tv.take(j as int) =~= tv);
        return Some(out);
    }
    if ends_with(p.as_str(), ".twxml") {
        let refs = &f.references;
        let ghost rv = refs@.map_values(|x: HubReference| x@);
        let mut k: usize = 0;
        while k < refs.len()
            invariant
                k <= refs.len(),
                rv == refs@.map_values(|x: HubReference| x@),
                lenses_view(out@) == rv.take(k as int).map_values(
                    |r: ReferenceView|
                        LensView { range: r.range, title: "Go to definition"@, command: "editor.action.goToDeclaration"@ },
                ),
            decreases refs.len() - k,
        {
            assert(rv[k as int] == refs@[k as int]@);
            let lens = Lens {
                range: refs[k].range,
                title: owned("Go to definition"),
                command: owned("editor.action.goToDeclaration"),
            };
            let ghost lv = lens@;
            let ghost before = lenses_view(out@);
            out.push(lens);
            assert(lenses_view(out@) =~= before.push(lv));
            assert(rv.take(k + 1).map_values(
                |r: ReferenceView|
                    LensView { range: r.range, title: "Go to definition"@, command: "editor.action.goToDeclaration"@ },
            ) =~= rv.take(k as int).map_values(
                |r: ReferenceView|
                    LensView { range: r.range, title: "Go to definition"@, command: "editor.action.goToDeclaration"@ },
            ).push(lv));
            assert(lenses_view(out@) =~= rv.take(k + 1).map_values(
                |r: ReferenceView|
                    LensView { range: r.range, title: "Go to definition"@, command: "editor.action.goToDeclaration"@ },
            ));
            k = k + 1;
        }
        assert(rv.take(k as int) =~= rv);
        return Some(out);
    }
    None
}

/// The inlay hints of the file with path `path`: in a HubGS file of the
/// workspace, `: Type` after each instance's name; none elsewhere.
pub open spec fn hints_of(ws: Seq<FileView>, path: Option<Seq<char>>) -> Seq<(LspPosition, Seq<char>)> {
    match path {
        Some(p) => if spec_ends_with(p, ".hubgs"@) {
            match file_by_path(ws, p) {
                Some(f) => f.hubgs.instances.map_values(|i: InstanceView| (i.range.end, ": "@ + i.instance_type)),
                None => Seq::empty(),
            }
        } else {
            Seq::empty()
        },
        None => Seq::empty(),
    }
}

/// The inlay hints of the file with path `path` (see `hints_of`).
pub fn inlay_hints(ws: &Workspace, path: &Option<String>) -> (r: Vec<(LspPosition, String)>)
    ensures
        r@.map_values(|h: (LspPosition, String)| (h.0, h.1@)) == hints_of(ws@, opt_view(*path)),
{
    let mut out: Vec<(LspPosition, String)> = Vec::new();
    assert(out@.map_values(|h: (LspPosition, String)| (h.0, h.1@)) =~= Seq::<(LspPosition, Seq<char>)>::empty());
    let p = match path {
        Some(p) => p,
        None => {
            return out;
        },
    };
    if !ends_with(p.as_str(), ".hubgs") {
        return out;
    }
    let i = match file_index_by_path(ws, p) {
        Some(i) => i,
        None => {
            return out;
        },
    };
    let f = &ws.files[i];
    assert(ws@[i as int] == f@);
    let insts = &f.hubgs.instances;
    let ghost iv = insts@.map_values(|x: HubInstance| x@);
    let mut k: usize = 0;
    while k < insts.len()
        invariant
            k <= insts.len(),
            iv == insts@.map_values(|x: HubInstance| x@),
            out@.map_values(|h: (LspPosition, String)| (h.0, h.1@)) == iv.take(k as int).map_values(
                |i: InstanceView| (i.range.end, ": "@ + i.instance_type),
            ),
        decreases insts.len() - k,
    {
        assert(iv[k as int] == insts@[k as int]@);
        let mut label = owned(": ");
        label.append(insts[k].instance_type.as_str());
        let ghost hv = (insts@[k as int].range.end, label@);
        let ghost before = out@.map_values(|h: (LspPosition, String)| (h.0, h.1@));
        out.push((insts[k].range.end, label));
        assert(out@.map_values(|h: (LspPosition, String)| (h.0, h.1@)) =~= before.push(hv));
        assert(iv.take(k + 1).map_values(|i: InstanceView| (i.range.end, ": "@ + i.instance_type)) =~= iv.take(
            k as int,
        ).map_values(|i: InstanceView| (i.range.end, ": "@ + i.instance_type)).push(hv));
        assert(out@.map_values(|h: (LspPosition, String)| (h.0, h.1@)) =~= iv.take(k + 1).map_values(
            |i: InstanceView| (i.range.end, ": "@ + i.instance_type),
        ));
        k = k + 1;
    }
    assert(iv.take(k as int) =~= iv);
    out
}

// ---------- quick fixes on a review ----------

/// A quick fix: its title, the text that replaces its range, and whether
/// it is the preferred fix.
pub struct QuickFix {
    pub title: String,
    pub range: LspRange,
    pub new_text: String,
    pub preferred: bool,
}

/// The view of a quick fix.
pub struct FixView {
    pub title: Seq<char>,
    pub range: LspRange,
    pub new_text: Seq<char>,
    pub preferred: bool,
}

impl View for QuickFix {
    type V = FixView;

    open spec fn view(&self) -> FixView {
        FixView { title: self.title@, range: self.range, new_text: self.new_text@, preferred: self.preferred }
    }
}

/// A hubref of `id` and `field` holding `text`.
pub open spec fn hubref_text(id: Seq<char>, field: Seq<char>, text: Seq<char>) -> Seq<char> {
    "<hubref id=\""@ + id + "\" field=\""@ + field + "\">"@ + text + "</hubref>"@
}

/// The fixes for a review around a hubref of `id` and `field` whose text is
/// `current` while the field's value shows as `canonical`: the preferred
/// one replaces the review by the hubref with the value; the other keeps
/// the current text.
pub open spec fn review_fixes(
    review: LspRange,
    id: Seq<char>,
    field: Seq<char>,
    current: Seq<char>,
    canonical: Seq<char>,
) -> Seq<FixView> {
    seq![
        FixView {
            title: "Sync and Resolve: change to '"@ + canonical + "'"@,
            range: review,
            new_text: hubref_text(id, field, canonical),
            preferred: true,
        },
        FixView {
            title: "Mark as Resolved: keep current text"@,
            range: review,
            new_text: hubref_text(id, field, current),
            preferred: false,
        },
    ]
}

fn make_hubref(id: &str, field: &str, text: &str) -> (r: String)
    ensures
        r@ == hubref_text(id@, field@, text@),
{
    let mut t = owned("<hubref id=\"");
    t.append(id);
    t.append("\" field=\"");
    t.append(field);
    t.append("\">");
    t.append(text);
    t.append("</hubref>");
    t
}

/// The quick fixes for a review (see `review_fixes`), the field's value
/// being `value` as computed.
pub fn code_action_impl(review: LspRange, id: &str, field: &str, current: &str, value: &HubValue) -> (r: Vec<QuickFix>)
    ensures
        r@.map_values(|q: QuickFix| q@) == review_fixes(review, id@, field@, current@, display_value(value@)),
{
    let canonical = display_of(value);
    let mut title = owned("Sync and Resolve: change to '");
    title.append(canonical.as_str());
    title.append("'");
    let sync = QuickFix { title, range: review, new_text: make_hubref(id, field, canonical.as_str()), preferred: true };
    let keep = QuickFix {
        title: owned("Mark as Resolved: keep current text"),
        range: review,
        new_text: make_hubref(id, field, current),
        preferred: false,
    };
    let ghost (a, b) = (sync@, keep@);
    let mut out: Vec<QuickFix> = Vec::new();
    out.push(sync);
    out.push(keep);
    assert(out@.map_values(|q: QuickFix| q@) =~= seq![a, b]);
    out
}


// ---------- keeping hub reference texts in step with their values ----------

/// The edit for hub reference `r` of a document whose text is `content`,
/// its field's value showing as `computed` where it could be computed, the
/// pass taking the reviewed references (`only_reviewed`) or the others.
/// A reviewed reference whose text equals the value goes back to a plain
/// hubref; an unreviewed one whose text differs from it is wrapped in a
/// review, when the document's text is at hand and the tag's text is not
/// empty. References to no instance, or without a field or a text, are
/// left alone.
pub open spec fn review_edit(
    ws: Seq<FileView>,
    r: ReferenceView,
    only_reviewed: bool,
    computed: Option<Seq<char>>,
    content: Option<Seq<char>>,
) -> Option<EditView> {
    if r.is_reviewed != only_reviewed {
        None
    } else {
        match (r.text, r.field, computed) {
            (Some(text), Some(field), Some(c)) => if spec_resolve_reference(ws, r.name) is None {
                None
            } else if only_reviewed {
                if c == text {
                    Some(EditView { range: r.tag_range, new_text: hubref_text(r.name, field, text) })
                } else {
                    None
                }
            } else if c != text {
                match content {
                    Some(s) => {
                        let t = range_text(s, r.tag_range);
                        if t.len() > 0 {
                            Some(EditView { range: r.tag_range, new_text: "<review>"@ + t + "</review>"@ })
                        } else {
                            None
                        }
                    },
                    None => None,
                }
            } else {
                None
            },
            _ => None,
        }
    }
}

/// The edits for the references `refs` in order, the `k`-th with the
/// computed text `computed_at(computed, k)`.
pub open spec fn review_edits_of(
    ws: Seq<FileView>,
    refs: Seq<ReferenceView>,
    only_reviewed: bool,
    computed: Seq<Option<Seq<char>>>,
    content: Option<Seq<char>>,
) -> Seq<EditView>
    decreases refs.len(),
{
    if refs.len() == 0 {
        Seq::empty()
    } else {
        review_edits_of(ws, refs.drop_last(), only_reviewed, computed, content) + match review_edit(
            ws,
            refs.last(),
            only_reviewed,
            computed_at(computed, refs.len() - 1),
            content,
        ) {
            Some(e) => seq![e],
            None => Seq::empty(),
        }
    }
}

/// Whether reviewing `r` reads the text of its tag in `content`: an
/// unreviewed reference, in the pass over unreviewed ones, to an instance,
/// with a field, and a text that differs from its computed value, in a
/// document whose text is at hand.
pub open spec fn reads_tag_text(
    ws: Seq<FileView>,
    r: ReferenceView,
    only_reviewed: bool,
    computed: Option<Seq<char>>,
    content: Option<Seq<char>>,
) -> bool {
    &&& !only_reviewed
    &&& !r.is_reviewed
    &&& content is Some
    &&& r.field is Some
    &&& r.text matches Some(text) && computed matches Some(c) && c != text
    &&& spec_resolve_reference(ws, r.name) is Some
}

/// Whether every tag whose text the review pass reads runs forwards in
/// `content`.
pub open spec fn tags_ordered(
    ws: Seq<FileView>,
    refs: Seq<ReferenceView>,
    only_reviewed: bool,
    computed: Seq<Option<Seq<char>>>,
    content: Option<Seq<char>>,
) -> bool {
    forall|k: int|
        0 <= k < refs.len() && #[trigger] reads_tag_text(ws, refs[k], only_reviewed, computed_at(computed, k), content)
            ==> range_ordered(content->0, refs[k].tag_range)
}

fn review_edit_at(
    ws: &Workspace,
    r: &HubReference,
    only_reviewed: bool,
    computed: &Option<String>,
    content: Option<&str>,
) -> (e: Option<FormatEdit>)
    requires
        reads_tag_text(ws@, r@, only_reviewed, opt_view(*computed), opt_str(content)) ==> range_ordered(
            opt_str(content)->0,
            r@.tag_range,
        ),
    ensures
        match e {
            Some(x) => review_edit(ws@, r@, only_reviewed, opt_view(*computed), opt_str(content)) == Some(x@),
            None => review_edit(ws@, r@, only_reviewed, opt_view(*computed), opt_str(content)) is None,
        },
{
    if r.is_reviewed != only_reviewed {
        return None;
    }
    let (text, field, c) = match (&r.text, &r.field, computed) {
        (Some(t), Some(f), Some(c)) => (t, f, c),
        _ => {
            return None;
        },
    };
    if resolve_reference(ws, &r.name).is_none() {
        return None;
    }
    if only_reviewed {
        if crate::text::str_eq(c.as_str(), text.as_str()) {
            Some(FormatEdit {
                range: r.tag_range,
                new_text: make_hubref(r.name.as_str(), field.as_str(), text.as_str()),
            })
        } else {
            None
        }
    } else if !crate::text::str_eq(c.as_str(), text.as_str()) {
        match content {
            Some(s) => {
                let t = get_range_text(s, r.tag_range);
                if t.as_str().unicode_len() > 0 {
                    let mut new_text = owned("<review>");
                    new_text.append(t.as_str());
                    new_text.append("</review>");
                    Some(FormatEdit { range: r.tag_range, new_text })
                } else {
                    None
                }
            },
            None => None,
        }
    } else {
        None
    }
}

/// The text of an optional string slice.
pub open spec fn opt_str(s: Option<&str>) -> Option<Seq<char>> {
    match s {
        Some(x) => Some(x@),
        None => None,
    }
}

/// The edits that keep the hub references of `file` in step with their
/// values (see `review_edit`): `computed[k]` is the text of the value of
/// the field the `k`-th reference shows, where it could be computed, and
/// `content` the document's text, where it is at hand.
pub fn review_edits(
    ws: &Workspace,
    file: &WorkspaceFile,
    only_reviewed: bool,
    computed: &Vec<Option<String>>,
    content: Option<&str>,
) -> (r: Vec<FormatEdit>)
    requires
        tags_ordered(ws@, file@.references, only_reviewed, computed_view(computed@), opt_str(content)),
    ensures
        r@.map_values(|e: FormatEdit| e@) == review_edits_of(
            ws@,
            file@.references,
            only_reviewed,
            computed_view(computed@),
            opt_str(content),
        ),
{
    let refs = &file.references;
    let ghost rv = file@.references;
    let ghost cv = computed_view(computed@);
    let mut out: Vec<FormatEdit> = Vec::new();
    let mut i: usize = 0;
    assert(rv.take(0) =~= Seq::<ReferenceView>::empty());
    while i < refs.len()
        invariant
            i <= refs.len(),
            rv == file@.references,
            rv.len() == refs.len(),
            forall|k: int| 0 <= k < refs.len() ==> rv[k] == #[trigger] refs@[k]@,
            cv == computed_view(computed@),
            tags_ordered(ws@, rv, only_reviewed, cv, opt_str(content)),
            out@.map_values(|e: FormatEdit| e@) == review_edits_of(ws@, rv.take(i as int), only_reviewed, cv, opt_str(content)),
        decreases refs.len() - i,
    {
        let none: Option<String> = None;
        assert(cv.len() == computed@.len());
        let c = if i < computed.len() {
            assert(cv[i as int] == opt_view(computed@[i as int]));
            &computed[i]
        } else {
            &none
        };
        assert(computed_at(cv, i as int) == opt_view(*c));
        let r = &refs[i];
        assert(rv[i as int] == r@);
        let e = review_edit_at(ws, r, only_reviewed, c, content);
        let ghost before = out@.map_values(|e: FormatEdit| e@);
        assert(rv.take(i + 1).drop_last() =~= rv.take(i as int));
        assert(rv.take(i + 1).last() == r@);
        match e {
            Some(x) => {
                out.push(x);
                assert(out@.map_values(|e: FormatEdit| e@) =~= before + seq![out@.last()@]);
            },
            None => {
                assert(out@.map_values(|e: FormatEdit| e@) =~= before + Seq::<EditView>::empty());
            },
        }
        i = i + 1;
    }
    assert(rv.take(i as int) =~= rv);
    out
}

/// Whether every tag whose text the review pass reads runs forwards (see
/// `tags_ordered`), the condition `review_edits` asks of its caller.
pub fn review_tags_ready(
    ws: &Workspace,
    file: &WorkspaceFile,
    only_reviewed: bool,
    computed: &Vec<Option<String>>,
    content: Option<&str>,
) -> (b: bool)
    ensures
        b == tags_ordered(ws@, file@.references, only_reviewed, computed_view(computed@), opt_str(content)),
{
    let s = match content {
        Some(s) => s,
        None => {
            return true;
        },
    };
    if only_reviewed {
        return true;
    }
    let refs = &file.references;
    let ghost rv = file@.references;
    let ghost cv = computed_view(computed@);
    let mut i: usize = 0;
    while i < refs.len()
        invariant
            i <= refs.len(),
            rv == file@.references,
            rv.len() == refs.len(),
            forall|k: int| 0 <= k < refs.len() ==> rv[k] == #[trigger] refs@[k]@,
            cv == computed_view(computed@),
            content == Some(s),
            !only_reviewed,
            forall|k: int|
                0 <= k < i && #[trigger] reads_tag_text(ws@, rv[k], only_reviewed, computed_at(cv, k), opt_str(content))
                    ==> range_ordered(s@, rv[k].tag_range),
        decreases refs.len() - i,
    {
        let none: Option<String> = None;
        assert(cv.len() == computed@.len());
        let c = if i < computed.len() {
            assert(cv[i as int] == opt_view(computed@[i as int]));
            &computed[i]
        } else {
            &none
        };
        assert(computed_at(cv, i as int) == opt_view(*c));
        let r = &refs[i];
        assert(rv[i as int] == r@);
        let differs = match (&r.text, c) {
            (Some(t), Some(v)) => !crate::text::str_eq(v.as_str(), t.as_str()),
            _ => false,
        };
        if !r.is_reviewed && r.field.is_some() && differs && resolve_reference(ws, &r.name).is_some() {
            if !crate::hover::range_is_ordered(s, r.tag_range) {
                assert(reads_tag_text(ws@, rv[i as int], only_reviewed, computed_at(cv, i as int), opt_str(content)));
                return false;
            }
        }
        i = i + 1;
    }
    true
}

} // verus!

//! Signature help inside a hub instance: the instance's type as a
//! signature whose parameters are its fields and roles, and the parameter
//! the cursor is assigning.
use vstd::prelude::*;
use vstd::string::StringSliceAdditionalSpecFns;
use vstd::utf8::encode_utf8;

use crate::layout::{spec_trim, trim_ws};
use crate::model::{opt_view, FieldView, FileView, HubFieldDef, HubRoleDef, HubType, RoleView, TypeView, Workspace};
use crate::navigation::{enclosing_instance, within};
use crate::position::{spec_utf16_idx_to_byte_idx, utf16_idx_to_byte_idx, LspPosition};
use crate::resolution::{file_by_path, file_index_by_path, resolve_type_at, resolve_type_at_path};
use crate::text::{ends_with, join, lines, owned, spec_ends_with, spec_join, spec_lines, spec_starts_with, starts_with, to_chars, views};
use crate::twxml_tree::{byte_count, chars_in_bytes};

verus! {

/// A parameter of a signature.
pub struct ParamInfo {
    pub label: String,
    pub documentation: String,
}

/// The view of a parameter.
pub struct ParamView {
    pub label: Seq<char>,
    pub documentation: Seq<char>,
}

impl View for ParamInfo {
    type V = ParamView;

    open spec fn view(&self) -> ParamView {
        ParamView { label: self.label@, documentation: self.documentation@ }
    }
}

/// The views of a sequence of parameters.
pub open spec fn params_view(v: Seq<ParamInfo>) -> Seq<ParamView> {
    v.map_values(|p: ParamInfo| p@)
}

/// The parameter a field gives.
pub open spec fn field_param(f: FieldView) -> ParamView {
    ParamView { label: f.name + ": Value"@, documentation: "Field: "@ + f.name }
}

/// The parameter a role gives: its allowed types as alternatives.
pub open spec fn role_param(r: RoleView) -> ParamView {
    ParamView {
        label: r.name + ": "@ + spec_join(r.allowed_types, " | "@),
        documentation: "Role: "@ + r.name + " (Multiplicity: "@ + r.multiplicity + ", Direction: "@ + r.direction
            + ")"@,
    }
}

/// The parameters of a hub type: its own fields, then its own roles.
pub open spec fn type_params(t: TypeView) -> Seq<ParamView> {
    t.fields.map_values(|f: FieldView| field_param(f)) + t.roles.map_values(|r: RoleView| role_param(r))
}

/// The signature of a hub type: `Name { p1, p2, ... }` over its parameters.
pub open spec fn type_signature(t: TypeView) -> Seq<char> {
    t.name + " { "@ + spec_join(type_params(t).map_values(|p: ParamView| p.label), ", "@) + " }"@
}

/// The signature label and parameters of `hub_type`.
pub fn format_hub_type_signature(hub_type: &HubType) -> (r: (String, Vec<ParamInfo>))
    ensures
        r.0@ == type_signature(hub_type@),
        params_view(r.1@) == type_params(hub_type@),
{
    let ghost fv = hub_type@.fields;
    let ghost rv = hub_type@.roles;
    let mut params: Vec<ParamInfo> = Vec::new();
    let mut labels: Vec<String> = Vec::new();
    let mut i: usize = 0;
    while i < hub_type.fields.len()
        invariant
            i <= hub_type.fields.len(),
            fv == hub_type@.fields,
            params_view(params@) == fv.take(i as int).map_values(|f: FieldView| field_param(f)),
            views(labels@) == params_view(params@).map_values(|p: ParamView| p.label),
        decreases hub_type.fields.len() - i,
    {
        let f = &hub_type.fields[i];
        assert(fv[i as int] == f@);
        let mut label = f.name.clone();
        label.append(": Value");
        let mut doc = owned("Field: ");
        doc.append(f.name.as_str());
        let p = ParamInfo { label: label.clone(), documentation: doc };
        let ghost pv = p@;
        let ghost before = params_view(params@);
        let ghost lbefore = views(labels@);
        params.push(p);
        labels.push(label);
        assert(params_view(params@) =~= before.push(pv));
        assert(views(labels@) =~= lbefore.push(pv.label));
        assert(params_view(params@).map_values(|p: ParamView| p.label) =~= before.map_values(|p: ParamView| p.label).push(pv.label));
        assert(fv.take(i + 1).map_values(|f: FieldView| field_param(f)) =~= fv.take(i as int).map_values(
            |f: FieldView| field_param(f),
        ).push(field_param(fv[i as int])));
        i = i + 1;
    }
    assert(fv.take(i as int) =~= fv);
    let ghost mid = params_view(params@);
    let mut j: usize = 0;
    while j < hub_type.roles.len()
        invariant
            j <= hub_type.roles.len(),
            rv == hub_type@.roles,
            params_view(params@) == mid + rv.take(j as int).map_values(|r: RoleView| role_param(r)),
            views(labels@) == params_view(params@).map_values(|p: ParamView| p.label),
        decreases hub_type.roles.len() - j,
    {
        let r = &hub_type.roles[j];
        assert(rv[j as int] == r@);
        let types = join(&r.allowed_types, " | ");
        assert(views(r.allowed_types@) =~= crate::model::strings_view(r.allowed_types@));
        let mut label = r.name.clone();
        label.append(": ");
        label.append(types.as_str());
        let mut doc = owned("Role: ");
        doc.append(r.name.as_str());
        doc.append(" (Multiplicity: ");
        doc.append(r.multiplicity.as_str());
        doc.append(", Direction: ");
        doc.append(r.direction.as_str());
        doc.append(")");
        let p = ParamInfo { label: label.clone(), documentation: doc };
        let ghost pv = p@;
        let ghost before = params_view(params@);
        let ghost lbefore = views(labels@);
        params.push(p);
        labels.push(label);
        assert(params_view(params@) =~= before.push(pv));
        assert(views(labels@) =~= lbefore.push(pv.label));
        assert(params_view(params@).map_values(|p: ParamView| p.label) =~= before.map_values(|p: ParamView| p.label).push(pv.label));
        assert(rv.take(j + 1).map_values(|r: RoleView| role_param(r)) =~= rv.take(j as int).map_values(
            |r: RoleView| role_param(r),
        ).push(role_param(rv[j as int])));
        assert(mid + rv.take(j + 1).map_values(|r: RoleView| role_param(r)) =~= (mid + rv.take(j as int).map_values(
            |r: RoleView| role_param(r),
        )).push(role_param(rv[j as int])));
        j = j + 1;
    }
    assert(rv.take(j as int) =~= rv);
    let mut label = hub_type.name.clone();
    label.append(" { ");
    label.append(join(&labels, ", ").as_str());
    label.append(" }");
    (label, params)
}

// ---------- the active parameter ----------

/// The index of the last `{`, `,` or line feed of `s`.
pub open spec fn last_separator(s: Seq<char>) -> Option<int>
    decreases s.len(),
{
    if s.len() == 0 {
        None
    } else if s.last() == '{' || s.last() == ',' || s.last() == '\n' {
        Some(s.len() - 1)
    } else {
        last_separator(s.drop_last())
    }
}

/// The index of the first `=` of `s`.
pub open spec fn first_equals(s: Seq<char>) -> Option<int>
    decreases s.len(),
{
    if s.len() == 0 {
        None
    } else if s[0] == '=' {
        Some(0)
    } else {
        match first_equals(s.drop_first()) {
            Some(i) => Some(i + 1),
            None => None,
        }
    }
}

/// The index of the first label of `labels` that starts with `name`.
pub open spec fn first_starting_with(labels: Seq<Seq<char>>, name: Seq<char>) -> Option<int>
    decreases labels.len(),
{
    if labels.len() == 0 {
        None
    } else if spec_starts_with(labels[0], name) {
        Some(0)
    } else {
        match first_starting_with(labels.drop_first(), name) {
            Some(i) => Some(i + 1),
            None => None,
        }
    }
}

/// The parameter being assigned before the byte offset `cursor` of
/// `contents`: after the last `{`, `,` or line feed before the cursor, the
/// name before the first `=` (trimmed) picks the first parameter whose
/// label starts with it; none when the cursor lies past the end, or there
/// is no separator or no `=`.
pub open spec fn active_parameter_of(contents: Seq<char>, cursor: int, labels: Seq<Seq<char>>) -> Option<u32> {
    match chars_in_bytes(contents, cursor) {
        Some(k) => {
            let prefix = contents.take(k as int);
            match last_separator(prefix) {
                Some(d) => {
                    let seg = prefix.skip(d + 1);
                    match first_equals(seg) {
                        Some(e) => match first_starting_with(labels, spec_trim(seg.take(e))) {
                            Some(i) => Some(i as u32),
                            None => None,
                        },
                        None => None,
                    }
                },
                None => None,
            }
        },
        None => None,
    }
}

/// The byte offset `cursor` of `contents` lies past its end or between two
/// characters.
pub open spec fn offset_between_chars(contents: Seq<char>, cursor: int) -> bool {
    cursor <= byte_count(contents) ==> chars_in_bytes(contents, cursor) is Some
}

/// The parameter being assigned (see `active_parameter_of`).
pub fn find_active_parameter(contents: &str, cursor: usize, params: &Vec<ParamInfo>) -> (r: Option<u32>)
    requires
        offset_between_chars(contents@, cursor as int),
    ensures
        r == active_parameter_of(contents@, cursor as int, params_view(params@).map_values(|p: ParamView| p.label)),
{
    active_parameter_at(contents, cursor as u128, params)
}

fn active_parameter_at(contents: &str, cursor: u128, params: &Vec<ParamInfo>) -> (r: Option<u32>)
    requires
        offset_between_chars(contents@, cursor as int),
    ensures
        r == active_parameter_of(contents@, cursor as int, params_view(params@).map_values(|p: ParamView| p.label)),
{
    let ghost labels = params_view(params@).map_values(|p: ParamView| p.label);
    let v = to_chars(contents);
    let k = match crate::twxml_tree::chars_in_prefix(&v, cursor) {
        Some(k) => k,
        None => {
            return None;
        },
    };
    let ghost prefix = v@.take(k as int);
    // the last separator before the cursor
    let mut d = k;
    while d > 0 && !(v[d - 1] == '{' || v[d - 1] == ',' || v[d - 1] == '\n')
        invariant
            d <= k <= v.len(),
            prefix == v@.take(k as int),
            last_separator(prefix) == last_separator(v@.take(d as int)),
        decreases d,
    {
        assert(v@.take(d as int).drop_last() =~= v@.take(d - 1));
        d = d - 1;
    }
    if d == 0 {
        assert(v@.take(0) =~= Seq::<char>::empty());
        return None;
    }
    let sep = d - 1;
    assert(v@.take(d as int).drop_last() =~= v@.take(sep as int));
    assert(last_separator(prefix) == Some(sep as int));
    let ghost seg = prefix.skip(sep + 1);
    assert(seg =~= v@.subrange(sep + 1, k as int));
    // the first `=` after it
    let mut e = sep + 1;
    while e < k && v[e] != '='
        invariant
            sep + 1 <= e <= k <= v.len(),
            seg =~= v@.subrange(sep + 1, k as int),
            first_equals(seg) == match first_equals(v@.subrange(e as int, k as int)) {
                Some(x) => Some(x + (e - (sep + 1))),
                None => None,
            },
        decreases k - e,
    {
        assert(v@.subrange(e as int, k as int).drop_first() =~= v@.subrange(e + 1, k as int));
        e = e + 1;
    }
    if e == k {
        assert(v@.subrange(e as int, k as int) =~= Seq::<char>::empty());
        return None;
    }
    assert(first_equals(seg) == Some(e - (sep + 1)));
    assert(seg.take(e - (sep + 1)) =~= v@.subrange(sep + 1, e as int));
    let raw = crate::text::string_from_range(&v, sep + 1, e);
    let name = trim_ws(raw.as_str());
    // the first parameter whose label starts with it
    let mut i: usize = 0;
    assert(labels.skip(0) =~= labels);
    while i < params.len()
        invariant
            i <= params.len(),
            labels == params_view(params@).map_values(|p: ParamView| p.label),
            labels.len() == params@.len(),
            v@ == contents@,
            prefix == v@.take(k as int),
            chars_in_bytes(contents@, cursor as int) == Some(k as nat),
            last_separator(prefix) == Some(sep as int),
            seg == prefix.skip(sep + 1),
            sep + 1 <= e,
            first_equals(seg) == Some(e - (sep + 1)),
            name@ == spec_trim(seg.take(e - (sep + 1))),
            first_starting_with(labels, name@) == match first_starting_with(labels.skip(i as int), name@) {
                Some(x) => Some(x + i),
                None => None,
            },
        decreases params.len() - i,
    {
        assert(labels.skip(i as int).drop_first() =~= labels.skip(i + 1));
        assert(labels.skip(i as int)[0] == params@[i as int].label@);
        if starts_with(params[i].label.as_str(), name.as_str()) {
            assert(first_starting_with(labels.skip(i as int), name@) == Some(0int));
            assert(first_starting_with(labels, name@) == Some(i as int));
            assert(active_parameter_of(contents@, cursor as int, labels) == Some((i as int) as u32));
            return Some(#[verifier::truncate] (i as u32));
        }
        i = i + 1;
    }
    None
}

// ---------- the request ----------

/// The bytes of the lines before line `n`, each with one byte for its line
/// feed.
pub open spec fn bytes_before_line(ls: Seq<Seq<char>>, n: nat) -> nat
    decreases n,
{
    if n == 0 {
        0
    } else {
        bytes_before_line(ls, (n - 1) as nat) + if n - 1 < ls.len() {
            encode_utf8(ls[n - 1]).len() + 1
        } else {
            0
        }
    }
}

/// The byte offset the request's position stands for in `s`, counting one
/// byte for each line end.
pub open spec fn cursor_offset(s: Seq<char>, pos: LspPosition) -> nat {
    let ls = spec_lines(s);
    bytes_before_line(ls, pos.line as nat) + if pos.line < ls.len() {
        encode_utf8(
            ls[pos.line as int].take(crate::hover::char_stop(ls[pos.line as int], pos.character as nat) as int),
        ).len()
    } else {
        0
    }
}

/// A signature shown by signature help.
pub struct SignatureInfo {
    pub label: String,
    pub documentation: String,
    pub parameters: Vec<ParamInfo>,
    pub active_parameter: Option<u32>,
}

/// The view of a signature.
pub struct SignatureView {
    pub label: Seq<char>,
    pub documentation: Seq<char>,
    pub parameters: Seq<ParamView>,
    pub active_parameter: Option<u32>,
}

impl View for SignatureInfo {
    type V = SignatureView;

    open spec fn view(&self) -> SignatureView {
        SignatureView {
            label: self.label@,
            documentation: self.documentation@,
            parameters: params_view(self.parameters@),
            active_parameter: self.active_parameter,
        }
    }
}

/// Signature help at `pos` of the open HubGS document `buffer` at address
/// `uri` (path `path` when it names a file of the workspace): inside the
/// block of an instance of that file whose type resolves, the type's
/// signature with the parameter being assigned; none otherwise.
pub open spec fn signature_of(
    ws: Seq<FileView>,
    uri: Seq<char>,
    path: Option<Seq<char>>,
    buffer: Seq<char>,
    pos: LspPosition,
) -> Option<SignatureView> {
    if !spec_ends_with(uri, ".hubgs"@) {
        None
    } else {
        match path {
            Some(p) => match file_by_path(ws, p) {
                Some(f) => match enclosing_instance(f.hubgs.instances, pos) {
                    Some(inst) => match resolve_type_at(ws, p, inst.instance_type) {
                        Some(t) => Some(
                            SignatureView {
                                label: type_signature(t),
                                documentation: "Hub Type definition for "@ + t.name,
                                parameters: type_params(t),
                                active_parameter: active_parameter_of(
                                    buffer,
                                    cursor_offset(buffer, pos) as int,
                                    type_params(t).map_values(|q: ParamView| q.label),
                                ),
                            },
                        ),
                        None => None,
                    },
                    None => None,
                },
                None => None,
            },
            None => None,
        }
    }
}

fn cursor_offset_of(contents: &str, pos: LspPosition) -> (r: u128)
    ensures
        r == cursor_offset(contents@, pos),
{
    let ls = lines(contents);
    let ghost lv = views(ls@);
    let mut total: u128 = 0;
    assert(0 <= (0 as int) * 0x5_0000_0000_0000_0000) by (nonlinear_arith);
    let mut i: usize = 0;
    let n = pos.line as usize;
    while i < n
        invariant
            i <= n,
            n == pos.line,
            lv == views(ls@),
            lv == spec_lines(contents@),
            total == bytes_before_line(lv, i as nat),
            total <= i * 0x5_0000_0000_0000_0000,
            n <= u32::MAX,
        decreases n - i,
    {
        if i < ls.len() {
            assert(lv[i as int] == ls@[i as int]@);
            let line = ls[i].as_str();
            let b = crate::format_edits::utf8_bytes(line);
            total = total + b + 1;
        }
        i = i + 1;
    }
    if n < ls.len() {
        assert(lv[n as int] == ls@[n as int]@);
        let v = to_chars(ls[n].as_str());
        let cs = crate::hover::utf16_char_index(&v, pos.character);
        let b = prefix_bytes(&v, cs);
        assert(total <= 0x1_0000_0000 * 0x5_0000_0000_0000_0000);
        total + b
    } else {
        total
    }
}

fn byte_len(s: &str) -> (n: u128)
    ensures
        n == byte_count(s@),
{
    let v = to_chars(s);
    let mut n: u128 = 0;
    let mut i: usize = 0;
    assert(v@.take(0) =~= Seq::<char>::empty());
    while i < v.len()
        invariant
            i <= v.len(),
            n == byte_count(v@.take(i as int)),
            n <= 4 * i,
        decreases v.len() - i,
    {
        proof {
            crate::twxml_tree::lemma_byte_count_push(v@.take(i as int), v@[i as int]);
            crate::position::lemma_utf8_len_bound(v@[i as int]);
        }
        assert(v@.take(i + 1) =~= v@.take(i as int).push(v@[i as int]));
        let w = crate::position::char_len_utf8(v[i]);
        n = n + w as u128;
        i = i + 1;
    }
    assert(v@.take(i as int) =~= s@);
    n
}

/// The number of UTF-8 bytes of the first `k` characters of `v`.
fn prefix_bytes(v: &Vec<char>, k: usize) -> (n: u128)
    requires
        k <= v.len(),
    ensures
        n == encode_utf8(v@.take(k as int)).len(),
        n <= 4 * (usize::MAX as int),
{
    let mut n: u128 = 0;
    let mut i: usize = 0;
    assert(v@.take(0) =~= Seq::<char>::empty());
    while i < k
        invariant
            i <= k <= v.len(),
            n == encode_utf8(v@.take(i as int)).len(),
            n <= 4 * i,
        decreases k - i,
    {
        proof {
            crate::position::lemma_utf8_count_push(v@.take(i as int), v@[i as int]);
            crate::position::lemma_utf8_len_bound(v@[i as int]);
        }
        assert(v@.take(i + 1) =~= v@.take(i as int).push(v@[i as int]));
        let w = crate::position::char_len_utf8(v[i]);
        n = n + w as u128;
        i = i + 1;
    }
    n
}

/// The cursor offset lies past the document's end or between two
/// characters.
pub open spec fn signature_cursor_ok(buffer: Seq<char>, pos: LspPosition) -> bool {
    offset_between_chars(buffer, cursor_offset(buffer, pos) as int)
}

/// Signature help (see `signature_of`), for the open document `buffer`.
pub fn signature_help(ws: &Workspace, uri: &str, path: &Option<String>, buffer: &str, pos: LspPosition) -> (r: Option<
    SignatureInfo,
>)
    requires
        signature_cursor_ok(buffer@, pos),
    ensures
        match r {
            Some(s) => signature_of(ws@, uri@, opt_view(*path), buffer@, pos) == Some(s@),
            None => signature_of(ws@, uri@, opt_view(*path), buffer@, pos) is None,
        },
{
    if !ends_with(uri, ".hubgs") {
        return None;
    }
    let p = match path {
        Some(p) => p,
        None => {
            return None;
        },
    };
    let fi = match file_index_by_path(ws, p) {
        Some(i) => i,
        None => {
            return None;
        },
    };
    let f = &ws.files[fi];
    assert(ws@[fi as int] == f@);
    let insts = &f.hubgs.instances;
    let ki = match crate::navigation::enclosing_index(insts, pos) {
        Some(ki) => ki,
        None => {
            return None;
        },
    };
    let inst = &insts[ki];
    let t = match resolve_type_at_path(ws, p, &inst.instance_type) {
        Some(t) => t,
        None => {
            return None;
        },
    };
    let (label, params) = format_hub_type_signature(&t);
    let offset = cursor_offset_of(buffer, pos);
    let blen = byte_len(buffer);
    let active = if offset > blen as u128 {
        proof {
            assert(chars_in_bytes(buffer@, offset as int) is None) by {
                crate::twxml_tree::lemma_chars_in_bytes(buffer@, offset as int);
                if chars_in_bytes(buffer@, offset as int) is Some {
                    let kk = chars_in_bytes(buffer@, offset as int)->0;
                    crate::twxml_tree::lemma_byte_count_mono(buffer@, kk as int, buffer@.len() as int);
                    assert(buffer@.take(buffer@.len() as int) =~= buffer@);
                }
            }
        }
        None
    } else {
        active_parameter_at(buffer, offset, &params)
    };
    let mut doc = owned("Hub Type definition for ");
    doc.append(t.name.as_str());
    Some(SignatureInfo { label, documentation: doc, parameters: params, active_parameter: active })
}

} // verus!

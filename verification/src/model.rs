//! The workspace data model: source files with what was read from them —
//! HubGS definitions (fields, roles, hub types, enums, structs), hub
//! instances and imports, and TWXML hub references and tags.
use vstd::prelude::*;

use crate::position::LspRange;

verus! {

/// A source file of the workspace.
pub struct SourceFile {
    pub path: String,
    pub contents: String,
}

/// A value assigned to a field or role. Numbers are held as the text of
/// their decimal rendering.
#[derive(Debug, PartialEq, Eq)]
pub enum HubValue {
    Identifier(String),
    Number(String),
    Boolean(bool),
    Text(String),
    ColorHex(String),
    Array(Vec<HubValue>),
}

/// A field declared in a hub type.
pub struct HubFieldDef {
    pub name: String,
    pub range: LspRange,
    /// `@computed` or `@default`.
    pub decorator: Option<String>,
    /// The expression inside the decorator.
    pub expression: Option<String>,
    pub is_display: bool,
    pub is_background: bool,
}

/// A role declared in a hub type.
pub struct HubRoleDef {
    pub name: String,
    pub direction: String,
    pub multiplicity: String,
    pub allowed_types: Vec<String>,
}

/// A hub type definition.
pub struct HubType {
    pub name: String,
    /// Path of the defining file.
    pub file: String,
    pub range: LspRange,
    pub block_range: LspRange,
    pub fields: Vec<HubFieldDef>,
    pub roles: Vec<HubRoleDef>,
    /// Parent type names from the `EXTENDS` clause.
    pub extends_parents: Vec<String>,
    pub constraints: Vec<String>,
}

/// An enum definition.
pub struct HubEnum {
    pub name: String,
    pub file: String,
    pub range: LspRange,
    pub variants: Vec<String>,
}

/// A struct definition.
pub struct HubStruct {
    pub name: String,
    pub file: String,
    pub range: LspRange,
    pub field_names: Vec<String>,
}

/// A field declared in a `FIELDS` block, with its type name.
pub struct GlobalField {
    pub name: String,
    pub file: String,
    pub range: LspRange,
    /// The declared type (`type_name` in the editor protocol layer).
    pub field_type: String,
}

/// An assignment inside a hub instance.
pub struct HubAssignment {
    pub name: String,
    pub range: LspRange,
    pub value: HubValue,
    pub value_range: LspRange,
}

/// A hub instance.
pub struct HubInstance {
    pub name: String,
    /// Name of the instance's hub type.
    pub instance_type: String,
    pub file: String,
    pub range: LspRange,
    pub block_range: LspRange,
    pub description: Option<String>,
    pub assignments: Vec<HubAssignment>,
}

/// An import of type names from another file.
pub struct HubImport {
    pub types: Vec<String>,
    /// Path of the file imported from.
    pub from: String,
}

/// What a HubGS file defines.
pub struct HubgsParseResult {
    pub instances: Vec<HubInstance>,
    pub types: Vec<HubType>,
    pub enums: Vec<HubEnum>,
    pub structs: Vec<HubStruct>,
    pub global_fields: Vec<GlobalField>,
    pub imports: Vec<HubImport>,
}

/// A `<hubref>` in a TWXML file.
pub struct HubReference {
    pub name: String,
    pub file: String,
    pub range: LspRange,
    pub field: Option<String>,
    pub text: Option<String>,
    pub tag_range: LspRange,
    pub is_reviewed: bool,
}

/// A tag occurrence in a TWXML file.
pub struct TwxmlTag {
    pub name: String,
    pub file: String,
    pub range: LspRange,
    pub parent_name: Option<String>,
}

/// A workspace file with what was read from it: its HubGS definitions and
/// its TWXML hub references and tags.
pub struct WorkspaceFile {
    pub source: SourceFile,
    pub hubgs: HubgsParseResult,
    pub references: Vec<HubReference>,
    pub tags: Vec<TwxmlTag>,
}

/// The files of the workspace.
pub struct Workspace {
    pub files: Vec<WorkspaceFile>,
}

/// A diagnostic produced by validation.
pub struct ValidationError {
    pub range: LspRange,
    pub message: String,
}

/// Access to the files of a database.
pub trait Db {
    /// The file with the given path, if any.
    fn find_file(&self, path: &str) -> (r: Option<SourceFile>)
        ensures
            r matches Some(f) ==> f.path@ == path@,
    ;
}

// ---------- mathematical views ----------

/// The view of a value.
pub enum ValueView {
    Identifier(Seq<char>),
    Number(Seq<char>),
    Boolean(bool),
    Text(Seq<char>),
    ColorHex(Seq<char>),
    Array(Seq<ValueView>),
}

/// The view of a value.
pub open spec fn value_view(v: HubValue) -> ValueView
    decreases v,
{
    match v {
        HubValue::Identifier(s) => ValueView::Identifier(s@),
        HubValue::Number(s) => ValueView::Number(s@),
        HubValue::Boolean(b) => ValueView::Boolean(b),
        HubValue::Text(s) => ValueView::Text(s@),
        HubValue::ColorHex(s) => ValueView::ColorHex(s@),
        HubValue::Array(vals) => ValueView::Array(values_view(vals@)),
    }
}

/// The views of a sequence of values.
pub open spec fn values_view(s: Seq<HubValue>) -> Seq<ValueView>
    decreases s,
{
    if s.len() == 0 {
        Seq::empty()
    } else {
        seq![value_view(s[0])] + values_view(s.drop_first())
    }
}

impl View for HubValue {
    type V = ValueView;

    open spec fn view(&self) -> ValueView {
        value_view(*self)
    }
}

/// The views of a sequence of strings.
pub open spec fn strings_view(s: Seq<String>) -> Seq<Seq<char>> {
    s.map_values(|x: String| x@)
}

/// The view of an optional string.
pub open spec fn opt_view(o: Option<String>) -> Option<Seq<char>> {
    match o {
        Some(s) => Some(s@),
        None => None,
    }
}

/// The view of a field definition.
pub struct FieldView {
    pub name: Seq<char>,
    pub range: LspRange,
    pub decorator: Option<Seq<char>>,
    pub expression: Option<Seq<char>>,
    pub is_display: bool,
    pub is_background: bool,
}

impl View for HubFieldDef {
    type V = FieldView;

    open spec fn view(&self) -> FieldView {
        FieldView {
            name: self.name@,
            range: self.range,
            decorator: opt_view(self.decorator),
            expression: opt_view(self.expression),
            is_display: self.is_display,
            is_background: self.is_background,
        }
    }
}

/// The view of a role definition.
pub struct RoleView {
    pub name: Seq<char>,
    pub direction: Seq<char>,
    pub multiplicity: Seq<char>,
    pub allowed_types: Seq<Seq<char>>,
}

impl View for HubRoleDef {
    type V = RoleView;

    open spec fn view(&self) -> RoleView {
        RoleView {
            name: self.name@,
            direction: self.direction@,
            multiplicity: self.multiplicity@,
            allowed_types: strings_view(self.allowed_types@),
        }
    }
}

/// The view of a hub type.
pub struct TypeView {
    pub name: Seq<char>,
    pub file: Seq<char>,
    pub range: LspRange,
    pub block_range: LspRange,
    pub fields: Seq<FieldView>,
    pub roles: Seq<RoleView>,
    pub extends_parents: Seq<Seq<char>>,
    pub constraints: Seq<Seq<char>>,
}

impl View for HubType {
    type V = TypeView;

    open spec fn view(&self) -> TypeView {
        TypeView {
            name: self.name@,
            file: self.file@,
            range: self.range,
            block_range: self.block_range,
            fields: self.fields@.map_values(|f: HubFieldDef| f@),
            roles: self.roles@.map_values(|r: HubRoleDef| r@),
            extends_parents: strings_view(self.extends_parents@),
            constraints: strings_view(self.constraints@),
        }
    }
}

/// The view of an enum.
pub struct EnumView {
    pub name: Seq<char>,
    pub file: Seq<char>,
    pub range: LspRange,
    pub variants: Seq<Seq<char>>,
}

impl View for HubEnum {
    type V = EnumView;

    open spec fn view(&self) -> EnumView {
        EnumView { name: self.name@, file: self.file@, range: self.range, variants: strings_view(self.variants@) }
    }
}

/// The view of a struct.
pub struct StructView {
    pub name: Seq<char>,
    pub file: Seq<char>,
    pub range: LspRange,
    pub field_names: Seq<Seq<char>>,
}

impl View for HubStruct {
    type V = StructView;

    open spec fn view(&self) -> StructView {
        StructView { name: self.name@, file: self.file@, range: self.range, field_names: strings_view(self.field_names@) }
    }
}

/// The view of a field declaration.
pub struct GlobalFieldView {
    pub name: Seq<char>,
    pub file: Seq<char>,
    pub range: LspRange,
    pub field_type: Seq<char>,
}

impl View for GlobalField {
    type V = GlobalFieldView;

    open spec fn view(&self) -> GlobalFieldView {
        GlobalFieldView { name: self.name@, file: self.file@, range: self.range, field_type: self.field_type@ }
    }
}

/// The view of an assignment.
pub struct AssignmentView {
    pub name: Seq<char>,
    pub range: LspRange,
    pub value: ValueView,
    pub value_range: LspRange,
}

impl View for HubAssignment {
    type V = AssignmentView;

    open spec fn view(&self) -> AssignmentView {
        AssignmentView { name: self.name@, range: self.range, value: self.value@, value_range: self.value_range }
    }
}

/// The view of an instance.
pub struct InstanceView {
    pub name: Seq<char>,
    pub instance_type: Seq<char>,
    pub file: Seq<char>,
    pub range: LspRange,
    pub block_range: LspRange,
    pub description: Option<Seq<char>>,
    pub assignments: Seq<AssignmentView>,
}

impl View for HubInstance {
    type V = InstanceView;

    open spec fn view(&self) -> InstanceView {
        InstanceView {
            name: self.name@,
            instance_type: self.instance_type@,
            file: self.file@,
            range: self.range,
            block_range: self.block_range,
            description: opt_view(self.description),
            assignments: self.assignments@.map_values(|a: HubAssignment| a@),
        }
    }
}

/// The view of an import.
pub struct ImportView {
    pub types: Seq<Seq<char>>,
    pub from: Seq<char>,
}

impl View for HubImport {
    type V = ImportView;

    open spec fn view(&self) -> ImportView {
        ImportView { types: strings_view(self.types@), from: self.from@ }
    }
}

/// The view of what a HubGS file defines.
pub struct ParseView {
    pub instances: Seq<InstanceView>,
    pub types: Seq<TypeView>,
    pub enums: Seq<EnumView>,
    pub structs: Seq<StructView>,
    pub global_fields: Seq<GlobalFieldView>,
    pub imports: Seq<ImportView>,
}

impl View for HubgsParseResult {
    type V = ParseView;

    open spec fn view(&self) -> ParseView {
        ParseView {
            instances: self.instances@.map_values(|x: HubInstance| x@),
            types: self.types@.map_values(|x: HubType| x@),
            enums: self.enums@.map_values(|x: HubEnum| x@),
            structs: self.structs@.map_values(|x: HubStruct| x@),
            global_fields: self.global_fields@.map_values(|x: GlobalField| x@),
            imports: self.imports@.map_values(|x: HubImport| x@),
        }
    }
}

/// The view of a hub reference.
pub struct ReferenceView {
    pub name: Seq<char>,
    pub file: Seq<char>,
    pub range: LspRange,
    pub field: Option<Seq<char>>,
    pub text: Option<Seq<char>>,
    pub tag_range: LspRange,
    pub is_reviewed: bool,
}

impl View for HubReference {
    type V = ReferenceView;

    open spec fn view(&self) -> ReferenceView {
        ReferenceView {
            name: self.name@,
            file: self.file@,
            range: self.range,
            field: opt_view(self.field),
            text: opt_view(self.text),
            tag_range: self.tag_range,
            is_reviewed: self.is_reviewed,
        }
    }
}

/// The view of a tag occurrence.
pub struct TagView {
    pub name: Seq<char>,
    pub file: Seq<char>,
    pub range: LspRange,
    pub parent_name: Option<Seq<char>>,
}

impl View for TwxmlTag {
    type V = TagView;

    open spec fn view(&self) -> TagView {
        TagView { name: self.name@, file: self.file@, range: self.range, parent_name: opt_view(self.parent_name) }
    }
}

/// The view of a workspace file.
pub struct FileView {
    pub path: Seq<char>,
    pub contents: Seq<char>,
    pub hubgs: ParseView,
    pub references: Seq<ReferenceView>,
    pub tags: Seq<TagView>,
}

impl View for WorkspaceFile {
    type V = FileView;

    open spec fn view(&self) -> FileView {
        FileView {
            path: self.source.path@,
            contents: self.source.contents@,
            hubgs: self.hubgs@,
            references: self.references@.map_values(|x: HubReference| x@),
            tags: self.tags@.map_values(|x: TwxmlTag| x@),
        }
    }
}

impl View for Workspace {
    type V = Seq<FileView>;

    open spec fn view(&self) -> Seq<FileView> {
        self.files@.map_values(|f: WorkspaceFile| f@)
    }
}

/// The view of a diagnostic.
pub struct ErrorView {
    pub range: LspRange,
    pub message: Seq<char>,
}

impl View for ValidationError {
    type V = ErrorView;

    open spec fn view(&self) -> ErrorView {
        ErrorView { range: self.range, message: self.message@ }
    }
}

// ---------- copies ----------

/// Mapping a sequence extended by one element.
pub proof fn lemma_map_push<A, B>(s: Seq<A>, x: A, f: spec_fn(A) -> B)
    ensures
        s.push(x).map_values(f) == s.map_values(f).push(f(x)),
{
    assert(s.push(x).map_values(f) =~= s.map_values(f).push(f(x)));
}

/// Mapping a prefix extended by the next element.
pub proof fn lemma_map_take_next<A, B>(s: Seq<A>, i: int, f: spec_fn(A) -> B)
    requires
        0 <= i < s.len(),
    ensures
        s.take(i + 1).map_values(f) == s.take(i).map_values(f).push(f(s[i])),
{
    assert(s.take(i + 1) =~= s.take(i).push(s[i]));
    lemma_map_push(s.take(i), s[i], f);
}

/// Copies a vector of strings.
pub fn copy_strings(v: &Vec<String>) -> (r: Vec<String>)
    ensures
        strings_view(r@) == strings_view(v@),
{
    let mut r: Vec<String> = Vec::new();
    let mut i: usize = 0;
    while i < v.len()
        invariant
            i <= v.len(),
            strings_view(r@) == strings_view(v@.take(i as int)),
        decreases v.len() - i,
    {
        let ghost r0 = r@;
        let x = v[i].clone();
        r.push(x);
        proof {
            lemma_map_push(r0, x, |x: String| x@);
            lemma_map_take_next(v@, i as int, |x: String| x@);
        }
        i = i + 1;
    }
    assert(v@.take(v.len() as int) =~= v@);
    r
}

/// Copies an optional string.
pub fn copy_opt_string(v: &Option<String>) -> (r: Option<String>)
    ensures
        opt_view(r) == opt_view(*v),
{
    match v {
        Some(s) => Some(s.clone()),
        None => None,
    }
}

/// Copies a value.
pub fn copy_value(v: &HubValue) -> (r: HubValue)
    ensures
        r@ == v@,
    decreases v,
{
    match v {
        HubValue::Identifier(s) => HubValue::Identifier(s.clone()),
        HubValue::Number(s) => HubValue::Number(s.clone()),
        HubValue::Boolean(b) => HubValue::Boolean(*b),
        HubValue::Text(s) => HubValue::Text(s.clone()),
        HubValue::ColorHex(s) => HubValue::ColorHex(s.clone()),
        HubValue::Array(vals) => {
            let out = copy_values(vals);
            HubValue::Array(out)
        },
    }
}

/// Copies a vector of values.
pub fn copy_values(vals: &Vec<HubValue>) -> (r: Vec<HubValue>)
    ensures
        values_view(r@) == values_view(vals@),
    decreases vals,
{
    let mut out: Vec<HubValue> = Vec::new();
    let mut i: usize = 0;
    while i < vals.len()
        invariant
            i <= vals.len(),
            values_view(out@) == values_view(vals@.take(i as int)),
        decreases vals.len() - i,
    {
        assert(decreases_to!(vals => vals@[i as int]));
        let v = copy_value(&vals[i]);
        proof {
            lemma_values_view_push(out@, v);
            lemma_values_view_push(vals@.take(i as int), vals@[i as int]);
            assert(vals@.take(i + 1) =~= vals@.take(i as int).push(vals@[i as int]));
        }
        out.push(v);
        i = i + 1;
    }
    assert(vals@.take(vals.len() as int) =~= vals@);
    out
}

/// The views of a sequence extended by one value.
pub proof fn lemma_values_view_push(s: Seq<HubValue>, v: HubValue)
    ensures
        values_view(s.push(v)) == values_view(s).push(value_view(v)),
    decreases s.len(),
{
    if s.len() == 0 {
        assert(s.push(v).drop_first() =~= Seq::<HubValue>::empty());
        assert(values_view(Seq::<HubValue>::empty()) == Seq::<ValueView>::empty());
        assert(s.push(v)[0] == v);
        assert(values_view(s.push(v)) == seq![value_view(v)] + values_view(s.push(v).drop_first()));
        assert(values_view(s.push(v)) =~= values_view(s).push(value_view(v)));
    } else {
        lemma_values_view_push(s.drop_first(), v);
        assert(s.push(v).drop_first() =~= s.drop_first().push(v));
        assert(values_view(s.push(v)) =~= values_view(s).push(value_view(v)));
    }
}

/// Length and elements of the views of a sequence of values.
pub proof fn lemma_values_view_index(s: Seq<HubValue>)
    ensures
        values_view(s).len() == s.len(),
        forall|i: int| 0 <= i < s.len() ==> #[trigger] values_view(s)[i] == value_view(s[i]),
    decreases s.len(),
{
    if s.len() > 0 {
        lemma_values_view_index(s.drop_first());
        assert forall|i: int| 0 <= i < s.len() implies #[trigger] values_view(s)[i] == value_view(s[i]) by {
            if i > 0 {
                assert(values_view(s)[i] == values_view(s.drop_first())[i - 1]);
            }
        }
    }
}

impl HubFieldDef {
    /// A copy of this field definition.
    pub fn copy(&self) -> (r: Self)
        ensures
            r@ == self@,
    {
        HubFieldDef {
            name: self.name.clone(),
            range: self.range,
            decorator: copy_opt_string(&self.decorator),
            expression: copy_opt_string(&self.expression),
            is_display: self.is_display,
            is_background: self.is_background,
        }
    }
}

impl HubRoleDef {
    /// A copy of this role definition.
    pub fn copy(&self) -> (r: Self)
        ensures
            r@ == self@,
    {
        HubRoleDef {
            name: self.name.clone(),
            direction: self.direction.clone(),
            multiplicity: self.multiplicity.clone(),
            allowed_types: copy_strings(&self.allowed_types),
        }
    }
}

/// Copies a vector of field definitions.
pub fn copy_fields(v: &Vec<HubFieldDef>) -> (r: Vec<HubFieldDef>)
    ensures
        r@.map_values(|f: HubFieldDef| f@) == v@.map_values(|f: HubFieldDef| f@),
{
    let mut r: Vec<HubFieldDef> = Vec::new();
    let mut i: usize = 0;
    while i < v.len()
        invariant
            i <= v.len(),
            r@.map_values(|f: HubFieldDef| f@) == v@.take(i as int).map_values(|f: HubFieldDef| f@),
        decreases v.len() - i,
    {
        let ghost r0 = r@;
        let x = v[i].copy();
        r.push(x);
        proof {
            lemma_map_push(r0, x, |f: HubFieldDef| f@);
            lemma_map_take_next(v@, i as int, |f: HubFieldDef| f@);
        }
        i = i + 1;
    }
    assert(v@.take(v.len() as int) =~= v@);
    r
}

/// Copies a vector of role definitions.
pub fn copy_roles(v: &Vec<HubRoleDef>) -> (r: Vec<HubRoleDef>)
    ensures
        r@.map_values(|x: HubRoleDef| x@) == v@.map_values(|x: HubRoleDef| x@),
{
    let mut r: Vec<HubRoleDef> = Vec::new();
    let mut i: usize = 0;
    while i < v.len()
        invariant
            i <= v.len(),
            r@.map_values(|x: HubRoleDef| x@) == v@.take(i as int).map_values(|x: HubRoleDef| x@),
        decreases v.len() - i,
    {
        let ghost r0 = r@;
        let x = v[i].copy();
        r.push(x);
        proof {
            lemma_map_push(r0, x, |x: HubRoleDef| x@);
            lemma_map_take_next(v@, i as int, |x: HubRoleDef| x@);
        }
        i = i + 1;
    }
    assert(v@.take(v.len() as int) =~= v@);
    r
}

impl HubType {
    /// A copy of this hub type.
    pub fn copy(&self) -> (r: Self)
        ensures
            r@ == self@,
    {
        HubType {
            name: self.name.clone(),
            file: self.file.clone(),
            range: self.range,
            block_range: self.block_range,
            fields: copy_fields(&self.fields),
            roles: copy_roles(&self.roles),
            extends_parents: copy_strings(&self.extends_parents),
            constraints: copy_strings(&self.constraints),
        }
    }
}

impl HubAssignment {
    /// A copy of this assignment.
    pub fn copy(&self) -> (r: Self)
        ensures
            r@ == self@,
    {
        HubAssignment {
            name: self.name.clone(),
            range: self.range,
            value: copy_value(&self.value),
            value_range: self.value_range,
        }
    }
}

impl HubInstance {
    /// A copy of this instance.
    pub fn copy(&self) -> (r: Self)
        ensures
            r@ == self@,
    {
        let mut assignments: Vec<HubAssignment> = Vec::new();
        let mut i: usize = 0;
        while i < self.assignments.len()
            invariant
                i <= self.assignments.len(),
                assignments@.map_values(|a: HubAssignment| a@) == self.assignments@.take(i as int).map_values(|a: HubAssignment| a@),
            decreases self.assignments.len() - i,
        {
            let ghost r0 = assignments@;
            let x = self.assignments[i].copy();
            assignments.push(x);
            proof {
                lemma_map_push(r0, x, |a: HubAssignment| a@);
                lemma_map_take_next(self.assignments@, i as int, |a: HubAssignment| a@);
            }
            i = i + 1;
        }
        assert(self.assignments@.take(self.assignments.len() as int) =~= self.assignments@);
        HubInstance {
            name: self.name.clone(),
            instance_type: self.instance_type.clone(),
            file: self.file.clone(),
            range: self.range,
            block_range: self.block_range,
            description: copy_opt_string(&self.description),
            assignments,
        }
    }
}

impl HubEnum {
    /// A copy of this enum.
    pub fn copy(&self) -> (r: Self)
        ensures
            r@ == self@,
    {
        HubEnum {
            name: self.name.clone(),
            file: self.file.clone(),
            range: self.range,
            variants: copy_strings(&self.variants),
        }
    }
}

impl HubStruct {
    /// A copy of this struct.
    pub fn copy(&self) -> (r: Self)
        ensures
            r@ == self@,
    {
        HubStruct {
            name: self.name.clone(),
            file: self.file.clone(),
            range: self.range,
            field_names: copy_strings(&self.field_names),
        }
    }
}

impl GlobalField {
    /// A copy of this field declaration.
    pub fn copy(&self) -> (r: Self)
        ensures
            r@ == self@,
    {
        GlobalField {
            name: self.name.clone(),
            file: self.file.clone(),
            range: self.range,
            field_type: self.field_type.clone(),
        }
    }
}

impl HubReference {
    /// A copy of this reference.
    pub fn copy(&self) -> (r: Self)
        ensures
            r@ == self@,
    {
        HubReference {
            name: self.name.clone(),
            file: self.file.clone(),
            range: self.range,
            field: copy_opt_string(&self.field),
            text: copy_opt_string(&self.text),
            tag_range: self.tag_range,
            is_reviewed: self.is_reviewed,
        }
    }
}

impl TwxmlTag {
    /// A copy of this tag.
    pub fn copy(&self) -> (r: Self)
        ensures
            r@ == self@,
    {
        TwxmlTag {
            name: self.name.clone(),
            file: self.file.clone(),
            range: self.range,
            parent_name: copy_opt_string(&self.parent_name),
        }
    }
}

impl SourceFile {
    /// A copy of this file.
    pub fn copy(&self) -> (r: Self)
        ensures
            r == *self,
    {
        SourceFile { path: self.path.clone(), contents: self.contents.clone() }
    }
}

impl Db for Workspace {
    /// The first file of the workspace with exactly this path.
    fn find_file(&self, path: &str) -> (r: Option<SourceFile>)
        ensures
            match r {
                Some(f) => exists|i: int|
                    0 <= i < self.files@.len() && self.files@[i].source == f && f.path@ == path@
                        && forall|j: int| 0 <= j < i ==> self.files@[j].source.path@ != path@,
                None => forall|j: int| 0 <= j < self.files@.len() ==> self.files@[j].source.path@ != path@,
            },
    {
        let p = crate::text::owned(path);
        let mut i: usize = 0;
        while i < self.files.len()
            invariant
                p@ == path@,
                i <= self.files.len(),
                forall|j: int| 0 <= j < i ==> self.files@[j].source.path@ != path@,
            decreases self.files.len() - i,
        {
            if self.files[i].source.path == p {
                return Some(self.files[i].source.copy());
            }
            i = i + 1;
        }
        None
    }
}

} // verus!

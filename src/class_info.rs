use vstd::prelude::*;
use crate::names::{texts, DotId, Id, QualifiedName};

verus! {

/// Values that can be copied with their mathematical value kept.
pub trait Duplicate: View + Sized {
    fn duplicate(&self) -> (r: Self)
        ensures
            r@ == self@;
}

/// The mathematical values of a sequence.
pub open spec fn views<T: View>(s: Seq<T>) -> Seq<T::V> {
    s.map_values(|x: T| x@)
}

/// Copies every element of a vector.
pub fn copy_all<T: Duplicate>(v: &Vec<T>) -> (r: Vec<T>)
    ensures
        views(r@) == views(v@),
{
    let mut r: Vec<T> = Vec::new();
    let mut i: usize = 0;
    while i < v.len()
        invariant
            i <= v.len(),
            r@.len() == i,
            forall|j: int| 0 <= j < i ==> #[trigger] r@[j]@ == v@[j]@,
        decreases v.len() - i,
    {
        r.push(v[i].duplicate());
        i = i + 1;
    }
    assert(views(r@) =~= views(v@));
    r
}

impl Duplicate for DotId {
    fn duplicate(&self) -> (r: DotId) {
        self.copy()
    }
}

#[derive(Clone, Copy, Debug, PartialEq, Eq, Structural)]
pub enum Privacy {
    Public,
    Protected,
    Package,
    Private,
}

/// The modifiers of a class or a member.
#[derive(Clone, Copy, Debug, PartialEq, Eq, Structural)]
pub struct Flags {
    pub privacy: Privacy,
    pub is_static: bool,
    pub is_final: bool,
    pub is_synchronized: bool,
    pub is_native: bool,
    pub is_abstract: bool,
}

/// What kind of type a class declaration introduces.
#[derive(Clone, Copy, Debug, PartialEq, Eq, Structural)]
pub enum ClassKind {
    Class,
    Interface,
    Enum,
}

#[derive(Clone, Copy, Debug, PartialEq, Eq, Structural)]
pub enum ScalarType {
    Int,
    Long,
    Short,
    Byte,
    Double,
    Float,
    Char,
    Boolean,
}

/// A Java type as it appears in a signature.
pub enum Type {
    Scalar(ScalarType),
    Class(DotId),
    Variable(Id),
    Array(Box<Type>),
}

pub enum TypeView {
    Scalar(ScalarType),
    Class(QualifiedName),
    Variable(Seq<char>),
    Array(Box<TypeView>),
}

pub open spec fn type_view(t: Type) -> TypeView
    decreases t,
{
    match t {
        Type::Scalar(s) => TypeView::Scalar(s),
        Type::Class(c) => TypeView::Class(c@),
        Type::Variable(v) => TypeView::Variable(v@),
        Type::Array(e) => TypeView::Array(Box::new(type_view(*e))),
    }
}

impl View for Type {
    type V = TypeView;

    open spec fn view(&self) -> TypeView {
        type_view(*self)
    }
}

impl Type {
    fn copy_type(&self) -> (r: Type)
        ensures
            r@ == self@,
        decreases self,
    {
        match self {
            Type::Scalar(s) => Type::Scalar(*s),
            Type::Class(c) => Type::Class(c.copy()),
            Type::Variable(v) => Type::Variable(v.clone()),
            Type::Array(e) => {
                let inner = e.copy_type();
                Type::Array(Box::new(inner))
            },
        }
    }
}

impl Duplicate for Type {
    fn duplicate(&self) -> (r: Type) {
        self.copy_type()
    }
}

/// A generic parameter with its bounds.
pub struct Generic {
    pub id: Id,
    pub extends: Vec<DotId>,
}

pub struct GenericView {
    pub id: Seq<char>,
    pub extends: Seq<QualifiedName>,
}

impl View for Generic {
    type V = GenericView;

    open spec fn view(&self) -> GenericView {
        GenericView { id: self.id@, extends: views(self.extends@) }
    }
}

impl Duplicate for Generic {
    fn duplicate(&self) -> (r: Generic) {
        Generic { id: self.id.clone(), extends: copy_all(&self.extends) }
    }
}

/// A reference to a class with its generic arguments.
pub struct ClassRef {
    pub name: DotId,
    pub generics: Vec<Type>,
}

pub struct ClassRefView {
    pub name: QualifiedName,
    pub generics: Seq<TypeView>,
}

impl View for ClassRef {
    type V = ClassRefView;

    open spec fn view(&self) -> ClassRefView {
        ClassRefView { name: self.name@, generics: views(self.generics@) }
    }
}

impl Duplicate for ClassRef {
    fn duplicate(&self) -> (r: ClassRef) {
        ClassRef { name: self.name.copy(), generics: copy_all(&self.generics) }
    }
}

pub struct Constructor {
    pub flags: Flags,
    pub generics: Vec<Generic>,
    pub argument_tys: Vec<Type>,
}

pub struct ConstructorView {
    pub flags: Flags,
    pub generics: Seq<GenericView>,
    pub argument_tys: Seq<TypeView>,
}

impl View for Constructor {
    type V = ConstructorView;

    open spec fn view(&self) -> ConstructorView {
        ConstructorView {
            flags: self.flags,
            generics: views(self.generics@),
            argument_tys: views(self.argument_tys@),
        }
    }
}

impl Duplicate for Constructor {
    fn duplicate(&self) -> (r: Constructor) {
        Constructor {
            flags: self.flags,
            generics: copy_all(&self.generics),
            argument_tys: copy_all(&self.argument_tys),
        }
    }
}

pub struct Field {
    pub flags: Flags,
    pub name: Id,
    pub ty: Type,
}

pub struct FieldView {
    pub flags: Flags,
    pub name: Seq<char>,
    pub ty: TypeView,
}

impl View for Field {
    type V = FieldView;

    open spec fn view(&self) -> FieldView {
        FieldView { flags: self.flags, name: self.name@, ty: self.ty@ }
    }
}

impl Duplicate for Field {
    fn duplicate(&self) -> (r: Field) {
        Field { flags: self.flags, name: self.name.clone(), ty: self.ty.copy_type() }
    }
}

pub struct Method {
    pub name: Id,
    pub flags: Flags,
    pub generics: Vec<Generic>,
    pub argument_tys: Vec<Type>,
    pub return_ty: Option<Type>,
}

pub struct MethodView {
    pub name: Seq<char>,
    pub flags: Flags,
    pub generics: Seq<GenericView>,
    pub argument_tys: Seq<TypeView>,
    pub return_ty: Option<TypeView>,
}

impl View for Method {
    type V = MethodView;

    open spec fn view(&self) -> MethodView {
        MethodView {
            name: self.name@,
            flags: self.flags,
            generics: views(self.generics@),
            argument_tys: views(self.argument_tys@),
            return_ty: match self.return_ty {
                Some(t) => Some(t@),
                None => None,
            },
        }
    }
}

impl Duplicate for Method {
    fn duplicate(&self) -> (r: Method) {
        let return_ty = match &self.return_ty {
            Some(t) => Some(t.copy_type()),
            None => None,
        };
        Method {
            name: self.name.clone(),
            flags: self.flags,
            generics: copy_all(&self.generics),
            argument_tys: copy_all(&self.argument_tys),
            return_ty,
        }
    }
}

/// The structure of a class, apart from where it was declared.
pub struct ClassBody {
    pub flags: Flags,
    pub name: QualifiedName,
    pub kind: ClassKind,
    pub generics: Seq<GenericView>,
    pub extends: Seq<ClassRefView>,
    pub implements: Seq<ClassRefView>,
    pub constructors: Seq<ConstructorView>,
    pub fields: Seq<FieldView>,
    pub methods: Seq<MethodView>,
}

/// A class description together with the place that introduced it.
pub struct ClassInfoView {
    pub span: proc_macro2::Span,
    pub body: ClassBody,
}

/// One class or interface, located at the declaration that introduced it.
pub struct ClassInfo {
    pub span: proc_macro2::Span,
    pub flags: Flags,
    pub name: DotId,
    pub kind: ClassKind,
    pub generics: Vec<Generic>,
    pub extends: Vec<ClassRef>,
    pub implements: Vec<ClassRef>,
    pub constructors: Vec<Constructor>,
    pub fields: Vec<Field>,
    pub methods: Vec<Method>,
}

impl View for ClassInfo {
    type V = ClassInfoView;

    open spec fn view(&self) -> ClassInfoView {
        ClassInfoView {
            span: self.span,
            body: ClassBody {
                flags: self.flags,
                name: self.name@,
                kind: self.kind,
                generics: views(self.generics@),
                extends: views(self.extends@),
                implements: views(self.implements@),
                constructors: views(self.constructors@),
                fields: views(self.fields@),
                methods: views(self.methods@),
            },
        }
    }
}

/// A class description as the reflection tool gave it: it carries no location.
pub struct JavapClassInfo {
    pub flags: Flags,
    pub name: DotId,
    pub kind: ClassKind,
    pub generics: Vec<Generic>,
    pub extends: Vec<ClassRef>,
    pub implements: Vec<ClassRef>,
    pub constructors: Vec<Constructor>,
    pub fields: Vec<Field>,
    pub methods: Vec<Method>,
}

impl View for JavapClassInfo {
    type V = ClassBody;

    open spec fn view(&self) -> ClassBody {
        ClassBody {
            flags: self.flags,
            name: self.name@,
            kind: self.kind,
            generics: views(self.generics@),
            extends: views(self.extends@),
            implements: views(self.implements@),
            constructors: views(self.constructors@),
            fields: views(self.fields@),
            methods: views(self.methods@),
        }
    }
}

impl Duplicate for JavapClassInfo {
    fn duplicate(&self) -> (r: JavapClassInfo) {
        JavapClassInfo {
            flags: self.flags,
            name: self.name.copy(),
            kind: self.kind,
            generics: copy_all(&self.generics),
            extends: copy_all(&self.extends),
            implements: copy_all(&self.implements),
            constructors: copy_all(&self.constructors),
            fields: copy_all(&self.fields),
            methods: copy_all(&self.methods),
        }
    }
}

impl Duplicate for ClassInfo {
    fn duplicate(&self) -> (r: ClassInfo) {
        ClassInfo {
            span: self.span,
            flags: self.flags,
            name: self.name.copy(),
            kind: self.kind,
            generics: copy_all(&self.generics),
            extends: copy_all(&self.extends),
            implements: copy_all(&self.implements),
            constructors: copy_all(&self.constructors),
            fields: copy_all(&self.fields),
            methods: copy_all(&self.methods),
        }
    }
}

impl JavapClassInfo {
    /// This description, located at `span`.
    pub fn to_class_info(&self, span: proc_macro2::Span) -> (r: ClassInfo)
        ensures
            r@ == (ClassInfoView { span, body: self@ }),
    {
        ClassInfo {
            span,
            flags: self.flags,
            name: self.name.copy(),
            kind: self.kind,
            generics: copy_all(&self.generics),
            extends: copy_all(&self.extends),
            implements: copy_all(&self.implements),
            constructors: copy_all(&self.constructors),
            fields: copy_all(&self.fields),
            methods: copy_all(&self.methods),
        }
    }
}

impl From<ClassInfo> for JavapClassInfo {
    /// Drops the location of a description.
    fn from(ci: ClassInfo) -> (r: JavapClassInfo) {
        JavapClassInfo {
            flags: ci.flags,
            name: ci.name,
            kind: ci.kind,
            generics: ci.generics,
            extends: ci.extends,
            implements: ci.implements,
            constructors: ci.constructors,
            fields: ci.fields,
            methods: ci.methods,
        }
    }
}

impl vstd::std_specs::convert::FromSpecImpl<ClassInfo> for JavapClassInfo {
    open spec fn obeys_from_spec() -> bool {
        true
    }

    open spec fn from_spec(ci: ClassInfo) -> JavapClassInfo {
        JavapClassInfo {
            flags: ci.flags,
            name: ci.name,
            kind: ci.kind,
            generics: ci.generics,
            extends: ci.extends,
            implements: ci.implements,
            constructors: ci.constructors,
            fields: ci.fields,
            methods: ci.methods,
        }
    }
}

/// Read access to the parts of a class description.
pub trait ClassInfoAccessors: View<V = ClassBody> {
    fn flags(&self) -> (r: &Flags)
        ensures
            *r == self@.flags;

    fn name(&self) -> (r: &DotId)
        ensures
            r@ == self@.name;

    fn kind(&self) -> (r: ClassKind)
        ensures
            r == self@.kind;

    fn generics(&self) -> (r: &Vec<Generic>)
        ensures
            views(r@) == self@.generics;

    fn extends(&self) -> (r: &Vec<ClassRef>)
        ensures
            views(r@) == self@.extends;

    fn implements(&self) -> (r: &Vec<ClassRef>)
        ensures
            views(r@) == self@.implements;

    fn constructors(&self) -> (r: &Vec<Constructor>)
        ensures
            views(r@) == self@.constructors;

    fn fields(&self) -> (r: &Vec<Field>)
        ensures
            views(r@) == self@.fields;

    fn methods(&self) -> (r: &Vec<Method>)
        ensures
            views(r@) == self@.methods;
}

impl ClassInfoAccessors for JavapClassInfo {
    fn flags(&self) -> (r: &Flags) {
        &self.flags
    }

    fn name(&self) -> (r: &DotId) {
        &self.name
    }

    fn kind(&self) -> (r: ClassKind) {
        self.kind
    }

    fn generics(&self) -> (r: &Vec<Generic>) {
        &self.generics
    }

    fn extends(&self) -> (r: &Vec<ClassRef>) {
        &self.extends
    }

    fn implements(&self) -> (r: &Vec<ClassRef>) {
        &self.implements
    }

    fn constructors(&self) -> (r: &Vec<Constructor>) {
        &self.constructors
    }

    fn fields(&self) -> (r: &Vec<Field>) {
        &self.fields
    }

    fn methods(&self) -> (r: &Vec<Method>) {
        &self.methods
    }
}

} // verus!

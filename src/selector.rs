use std::sync::Arc;
use vstd::prelude::*;
use crate::class_info::{ClassInfo, ClassInfoView, Generic, MethodView, Type, views};
use crate::names::{DotId, Id, Ident};
use crate::reflect::{cached, not_reflected, ErrorKind, ReflectError, Reflector};
use vstd::string::StringExecFns;

verus! {

/// A class named in a selector, with the place where it was named.
pub struct ClassName {
    pub name: DotId,
    pub span: proc_macro2::Span,
}

/// Which constructor or method a binding is for.
pub enum MethodSelector {
    /// The class's only constructor.
    ClassName(ClassName),
    /// The class's only method with the given name.
    MethodName(ClassName, Ident),
    /// A member of a class that the user described in full.
    ClassInfo(ClassInfo),
}

/// Reflection on something callable: a class and the index of one of its
/// constructors or methods.
pub enum ReflectedMethod {
    Constructor(Arc<ClassInfo>, usize),
    Method(Arc<ClassInfo>, usize),
}

/// The indices of the methods called `name`, in declaration order.
pub open spec fn method_indices(methods: Seq<MethodView>, name: Seq<char>) -> Seq<int>
    decreases methods.len(),
{
    if methods.len() == 0 {
        Seq::empty()
    } else {
        let rest = method_indices(methods.drop_last(), name);
        if methods.last().name == name {
            rest.push(methods.len() - 1)
        } else {
            rest
        }
    }
}

/// `r` is what selecting the constructor of `class` gives: the only one, or
/// an error located at `span` that says how many there are.
pub open spec fn selects_constructor(
    class: ClassInfoView,
    span: proc_macro2::Span,
    r: Result<ReflectedMethod, ReflectError>,
) -> bool {
    let n = class.body.constructors.len();
    if n == 1 {
        r matches Ok(ReflectedMethod::Constructor(c, i)) && c@ == class && i == 0
    } else {
        r matches Err(e) && e.span == span && if n == 0 {
            e.kind is NoConstructor
        } else {
            e.kind matches ErrorKind::AmbiguousConstructor { count } && count == n
        }
    }
}

/// `r` is what selecting the method `name` of `class` gives: the only method
/// of that name, or an error located at `span` that says how many there are.
pub open spec fn selects_method(
    class: ClassInfoView,
    name: Seq<char>,
    span: proc_macro2::Span,
    r: Result<ReflectedMethod, ReflectError>,
) -> bool {
    let found = method_indices(class.body.methods, name);
    if found.len() == 1 {
        r matches Ok(ReflectedMethod::Method(c, i)) && c@ == class && i == found[0]
    } else {
        r matches Err(e) && e.span == span && if found.len() == 0 {
            e.kind matches ErrorKind::NoMethod { name: m } && m@ == name
        } else {
            e.kind matches ErrorKind::AmbiguousMethod { name: m, count } && m@ == name && count
                == found.len()
        }
    }
}

proof fn lemma_method_indices_in_range(methods: Seq<MethodView>, name: Seq<char>)
    ensures
        forall|k: int|
            0 <= k < method_indices(methods, name).len() ==> 0 <= #[trigger] method_indices(
                methods,
                name,
            )[k] < methods.len(),
    decreases methods.len(),
{
    if methods.len() > 0 {
        lemma_method_indices_in_range(methods.drop_last(), name);
        let rest = method_indices(methods.drop_last(), name);
        assert forall|k: int| 0 <= k < rest.len() implies 0 <= #[trigger] rest[k] < methods.len() by {
            assert(0 <= rest[k] < methods.drop_last().len());
        }
    }
}

impl ReflectedMethod {
    /// The index stays inside the class's constructors or methods.
    pub open spec fn wf(&self) -> bool {
        match self {
            ReflectedMethod::Constructor(c, i) => *i < c.constructors@.len(),
            ReflectedMethod::Method(c, i) => *i < c.methods@.len(),
        }
    }
}

/// Selects the only constructor of `class`.
pub fn resolve_constructor(class: ClassInfo, span: proc_macro2::Span) -> (r: Result<
    ReflectedMethod,
    ReflectError,
>)
    ensures
        selects_constructor(class@, span, r),
        r matches Ok(m) ==> m.wf(),
{
    let n = class.constructors.len();
    if n == 1 {
        Ok(ReflectedMethod::Constructor(Arc::new(class), 0))
    } else if n == 0 {
        Err(ReflectError { span, kind: ErrorKind::NoConstructor })
    } else {
        Err(ReflectError { span, kind: ErrorKind::AmbiguousConstructor { count: n } })
    }
}

/// Selects the only method of `class` called `name`; methods of other names,
/// whatever their parameters, play no part.
pub fn resolve_method(class: ClassInfo, name: &Id, span: proc_macro2::Span) -> (r: Result<
    ReflectedMethod,
    ReflectError,
>)
    ensures
        selects_method(class@, name@, span, r),
        r matches Ok(m) ==> m.wf(),
{
    let ghost ms = class@.body.methods;
    let mut found: Vec<usize> = Vec::new();
    let mut i: usize = 0;
    while i < class.methods.len()
        invariant
            i <= class.methods@.len(),
            ms == views(class.methods@),
            found@.map_values(|x: usize| x as int) == method_indices(ms.take(i as int), name@),
        decreases class.methods@.len() - i,
    {
        assert(ms.take(i + 1).drop_last() =~= ms.take(i as int));
        if class.methods[i].name == *name {
            found.push(i);
            assert(found@.map_values(|x: usize| x as int) =~= method_indices(ms.take(i as int), name@).push(i as int));
        }
        i = i + 1;
    }
    assert(ms.take(class.methods@.len() as int) =~= ms);
    proof {
        lemma_method_indices_in_range(ms, name@);
    }
    let count = found.len();
    if count == 1 {
        assert(found@.map_values(|x: usize| x as int)[0] == found@[0] as int);
        Ok(ReflectedMethod::Method(Arc::new(class), found[0]))
    } else if count == 0 {
        Err(ReflectError { span, kind: ErrorKind::NoMethod { name: name.clone() } })
    } else {
        Err(ReflectError { span, kind: ErrorKind::AmbiguousMethod { name: name.clone(), count } })
    }
}

impl ClassName {
    pub fn to_dot_id(&self) -> (r: DotId)
        ensures
            r@ == self.name@,
    {
        self.name.copy()
    }
}

impl Reflector {
    /// Finds the constructor or method that `method_selector` names, in the
    /// cached description of its class located at the selector's class name.
    pub fn reflect_method(&self, method_selector: &MethodSelector) -> (r: Result<
        ReflectedMethod,
        ReflectError,
    >)
        ensures
            r matches Ok(m) ==> m.wf(),
            match method_selector {
                MethodSelector::ClassName(cn) => match cached(self@.cache, cn.name@) {
                    Some(body) => selects_constructor(
                        ClassInfoView { span: cn.span, body },
                        cn.span,
                        r,
                    ),
                    None => r matches Err(e) && not_reflected(e, cn.name@, cn.span),
                },
                MethodSelector::MethodName(cn, mn) => match cached(self@.cache, cn.name@) {
                    Some(body) => selects_method(
                        ClassInfoView { span: cn.span, body },
                        mn.text@,
                        cn.span,
                        r,
                    ),
                    None => r matches Err(e) && not_reflected(e, cn.name@, cn.span),
                },
                MethodSelector::ClassInfo(ci) => r matches Err(e) && e.span == ci.span
                    && e.kind is Unsupported,
            },
    {
        match method_selector {
            MethodSelector::ClassName(cn) => {
                let dot_id = cn.to_dot_id();
                let info = self.reflect(&dot_id, cn.span)?;
                resolve_constructor(info.to_class_info(cn.span), cn.span)
            },
            MethodSelector::MethodName(cn, mn) => {
                let dot_id = cn.to_dot_id();
                let info = self.reflect(&dot_id, cn.span)?;
                resolve_method(info.to_class_info(cn.span), &mn.text, cn.span)
            },
            MethodSelector::ClassInfo(ci) => Err(
                ReflectError { span: ci.span, kind: ErrorKind::Unsupported },
            ),
        }
    }
}

impl ReflectedMethod {
    /// The name of this callable thing in Rust: constructors are called `new`.
    pub fn name(&self) -> (r: Id)
        requires
            self matches ReflectedMethod::Method(c, m) ==> m < c.methods@.len(),
        ensures
            r@ == match self {
                ReflectedMethod::Constructor(..) => seq!['n', 'e', 'w'],
                ReflectedMethod::Method(c, m) => c.methods@[*m as int].name@,
            },
    {
        match self {
            ReflectedMethod::Constructor(..) => {
                proof {
                    reveal_strlit("new");
                }
                String::from_str("new")
            },
            ReflectedMethod::Method(c, m) => c.methods[*m].name.clone(),
        }
    }

    pub fn class(&self) -> (r: &ClassInfo)
        ensures
            r == match self {
                ReflectedMethod::Constructor(c, _) => &**c,
                ReflectedMethod::Method(c, _) => &**c,
            },
    {
        match self {
            ReflectedMethod::Constructor(c, _) => c,
            ReflectedMethod::Method(c, _) => c,
        }
    }

    /// Is this something that is called on a *type*?
    pub fn is_static(&self) -> (r: bool)
        requires
            self matches ReflectedMethod::Method(c, m) ==> m < c.methods@.len(),
        ensures
            r == match self {
                ReflectedMethod::Constructor(..) => true,
                ReflectedMethod::Method(c, m) => c.methods@[*m as int].flags.is_static,
            },
    {
        match self {
            ReflectedMethod::Constructor(..) => true,
            ReflectedMethod::Method(c, m) => c.methods[*m].flags.is_static,
        }
    }

    pub fn generics(&self) -> (r: &Vec<Generic>)
        requires
            self.wf(),
        ensures
            r == match self {
                ReflectedMethod::Constructor(c, t) => &c.constructors@[*t as int].generics,
                ReflectedMethod::Method(c, m) => &c.methods@[*m as int].generics,
            },
    {
        match self {
            ReflectedMethod::Constructor(c, t) => &c.constructors[*t].generics,
            ReflectedMethod::Method(c, m) => &c.methods[*m].generics,
        }
    }

    pub fn argument_tys(&self) -> (r: &Vec<Type>)
        requires
            self.wf(),
        ensures
            r == match self {
                ReflectedMethod::Constructor(c, t) => &c.constructors@[*t as int].argument_tys,
                ReflectedMethod::Method(c, m) => &c.methods@[*m as int].argument_tys,
            },
    {
        match self {
            ReflectedMethod::Constructor(c, t) => &c.constructors[*t].argument_tys,
            ReflectedMethod::Method(c, m) => &c.methods[*m].argument_tys,
        }
    }
}

} // verus!

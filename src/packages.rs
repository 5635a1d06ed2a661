use std::sync::Arc;
use vstd::prelude::*;
use crate::class_info::{ClassBody, ClassInfo, ClassInfoView, ClassKind, Duplicate};
use crate::names::{texts, DotId, Id, Ident, QualifiedName};
use crate::reflect::{cached, names_match, not_reflected, ErrorKind, ReflectError, Reflector};

verus! {

/// The dotted name of a declared package, one identifier per segment.
pub struct PackageName {
    pub ids: Vec<Ident>,
}

/// A class whose body the reflection tool supplies.
pub struct ReflectedClass {
    pub span: proc_macro2::Span,
    pub name: DotId,
    pub kind: ClassKind,
}

pub enum ClassDeclKind {
    /// Only the name is given; the body comes from reflection.
    Reflected(ReflectedClass),
    /// The user wrote out the whole class.
    Specified(ClassInfo),
}

pub struct ClassDecl {
    pub kind: ClassDeclKind,
}

/// The classes declared under one package.
pub struct JavaPackage {
    pub package_name: PackageName,
    pub classes: Vec<ClassDecl>,
}

/// Everything the user declared, package by package.
pub struct DuchessDeclaration {
    pub packages: Vec<JavaPackage>,
}

/// One node of the package tree. The tree is kept as a list of nodes, each
/// pointing at its parent; the top-level packages have none.
pub struct SpannedPackageInfo {
    pub name: Id,
    /// Where the package was first declared.
    pub span: proc_macro2::Span,
    pub parent: Option<usize>,
    /// The classes declared directly in this package, in declaration order.
    pub classes: Vec<DotId>,
}

/// The package tree and every declared class, by qualified name.
pub struct RootMap {
    pub subpackages: Vec<SpannedPackageInfo>,
    pub classes: Vec<(DotId, Arc<ClassInfo>)>,
}

// ---- mathematical model ----

pub enum ClassDeclView {
    Reflected { span: proc_macro2::Span, name: QualifiedName, kind: ClassKind },
    Specified(ClassInfoView),
}

pub struct PackageDeclView {
    pub path: Seq<(Seq<char>, proc_macro2::Span)>,
    pub classes: Seq<ClassDeclView>,
}

pub struct NodeView {
    pub name: Seq<char>,
    pub span: proc_macro2::Span,
    pub parent: Option<int>,
    pub classes: Seq<QualifiedName>,
}

pub struct RootView {
    pub packages: Seq<NodeView>,
    pub classes: Seq<(QualifiedName, ClassInfoView)>,
}

impl View for ClassDecl {
    type V = ClassDeclView;

    open spec fn view(&self) -> ClassDeclView {
        match self.kind {
            ClassDeclKind::Reflected(c) => ClassDeclView::Reflected {
                span: c.span,
                name: c.name@,
                kind: c.kind,
            },
            ClassDeclKind::Specified(c) => ClassDeclView::Specified(c@),
        }
    }
}

pub open spec fn path_of(ids: Seq<Ident>) -> Seq<(Seq<char>, proc_macro2::Span)> {
    ids.map_values(|i: Ident| (i.text@, i.span))
}

impl View for JavaPackage {
    type V = PackageDeclView;

    open spec fn view(&self) -> PackageDeclView {
        PackageDeclView {
            path: path_of(self.package_name.ids@),
            classes: self.classes@.map_values(|c: ClassDecl| c@),
        }
    }
}

impl View for DuchessDeclaration {
    type V = Seq<PackageDeclView>;

    open spec fn view(&self) -> Seq<PackageDeclView> {
        self.packages@.map_values(|p: JavaPackage| p@)
    }
}

impl View for SpannedPackageInfo {
    type V = NodeView;

    open spec fn view(&self) -> NodeView {
        NodeView {
            name: self.name@,
            span: self.span,
            parent: match self.parent {
                Some(p) => Some(p as int),
                None => None,
            },
            classes: self.classes@.map_values(|d: DotId| d@),
        }
    }
}

impl View for RootMap {
    type V = RootView;

    open spec fn view(&self) -> RootView {
        RootView {
            packages: self.subpackages@.map_values(|p: SpannedPackageInfo| p@),
            classes: self.classes@.map_values(|e: (DotId, Arc<ClassInfo>)| (e.0@, e.1@)),
        }
    }
}

/// The segment texts of a package path.
pub open spec fn segments(path: Seq<(Seq<char>, proc_macro2::Span)>) -> Seq<Seq<char>> {
    path.map_values(|s: (Seq<char>, proc_macro2::Span)| s.0)
}

/// The absolute name of a class written as `name` inside package `package`:
/// a bare name is put in the package, a qualified one must name the package.
pub open spec fn absolute_name(package: Seq<Seq<char>>, name: QualifiedName) -> Option<
    QualifiedName,
> {
    if name.package.len() == 0 {
        Some(QualifiedName { package, class: name.class })
    } else if name.package == package {
        Some(name)
    } else {
        None
    }
}

/// The class that a declaration inside `package` introduces, under its
/// absolute name, if the declaration is valid.
pub open spec fn resolve(
    package: Seq<Seq<char>>,
    decl: ClassDeclView,
    cache: Seq<(QualifiedName, ClassBody)>,
) -> Option<(QualifiedName, ClassInfoView)> {
    match decl {
        ClassDeclView::Reflected { span, name, kind } => match absolute_name(package, name) {
            Some(n) => match cached(cache, n) {
                Some(b) => Some((n, ClassInfoView { span, body: ClassBody { kind, ..b } })),
                None => None,
            },
            None => None,
        },
        ClassDeclView::Specified(c) => match absolute_name(package, c.body.name) {
            Some(n) => Some((n, ClassInfoView { span: c.span, body: ClassBody { name: n, ..c.body } })),
            None => None,
        },
    }
}

/// `e` is the error of a declaration inside `package` that does not resolve.
pub open spec fn failure(
    package: Seq<Seq<char>>,
    decl: ClassDeclView,
    e: ReflectError,
) -> bool {
    let (span, name) = match decl {
        ClassDeclView::Reflected { span, name, kind } => (span, name),
        ClassDeclView::Specified(c) => (c.span, c.body.name),
    };
    match absolute_name(package, name) {
        None => e.span == span && (match e.kind {
            ErrorKind::NameMismatch { expected_package } => texts(expected_package@) == package,
            _ => false,
        }),
        Some(n) => not_reflected(e, n, span),
    }
}

/// The classes of one package declaration, resolved in order, if all resolve.
pub open spec fn resolve_all(
    package: Seq<Seq<char>>,
    decls: Seq<ClassDeclView>,
    cache: Seq<(QualifiedName, ClassBody)>,
) -> Option<Seq<(QualifiedName, ClassInfoView)>>
    decreases decls.len(),
{
    if decls.len() == 0 {
        Some(Seq::empty())
    } else {
        match (resolve_all(package, decls.drop_last(), cache), resolve(package, decls.last(), cache)) {
            (Some(rs), Some(r)) => Some(rs.push(r)),
            _ => None,
        }
    }
}

/// The index of the first child called `name` of `parent` (of a top-level
/// package when `parent` is `None`).
pub open spec fn find_child(nodes: Seq<NodeView>, parent: Option<int>, name: Seq<char>) -> Option<
    int,
>
    decreases nodes.len(),
{
    if nodes.len() == 0 {
        None
    } else {
        match find_child(nodes.drop_last(), parent, name) {
            Some(i) => Some(i),
            None => if nodes.last().parent == parent && nodes.last().name == name {
                Some(nodes.len() - 1)
            } else {
                None
            },
        }
    }
}

/// Steps into the child `segment` of `parent`, adding it if it is not there yet:
/// a package declared again keeps its node and the place of its first declaration.
pub open spec fn enter(
    nodes: Seq<NodeView>,
    parent: Option<int>,
    segment: (Seq<char>, proc_macro2::Span),
) -> (Seq<NodeView>, int) {
    match find_child(nodes, parent, segment.0) {
        Some(i) => (nodes, i),
        None => (
            nodes.push(
                NodeView { name: segment.0, span: segment.1, parent, classes: Seq::empty() },
            ),
            nodes.len() as int,
        ),
    }
}

/// Walks down a package path from `parent`, adding what is missing; gives
/// the tree and the node of the last segment.
pub open spec fn descend(
    nodes: Seq<NodeView>,
    parent: Option<int>,
    path: Seq<(Seq<char>, proc_macro2::Span)>,
) -> (Seq<NodeView>, int)
    decreases path.len(),
{
    if path.len() == 0 {
        (nodes, -1)
    } else {
        let (next, i) = enter(nodes, parent, path[0]);
        if path.len() == 1 {
            (next, i)
        } else {
            descend(next, Some(i), path.drop_first())
        }
    }
}

/// The tree after the classes `names` were declared under `path`.
pub open spec fn declare(
    nodes: Seq<NodeView>,
    path: Seq<(Seq<char>, proc_macro2::Span)>,
    names: Seq<QualifiedName>,
) -> Seq<NodeView> {
    let (next, i) = descend(nodes, None, path);
    next.update(i, NodeView { classes: next[i].classes + names, ..next[i] })
}

/// The index of the entry for `name`.
pub open spec fn find_key(classes: Seq<(QualifiedName, ClassInfoView)>, name: QualifiedName) -> Option<
    int,
>
    decreases classes.len(),
{
    if classes.len() == 0 {
        None
    } else if classes.last().0 == name {
        Some(classes.len() - 1)
    } else {
        find_key(classes.drop_last(), name)
    }
}

/// The class map after `class` was declared under `name`: a later declaration
/// of the same name takes the place of the earlier one.
pub open spec fn put(
    classes: Seq<(QualifiedName, ClassInfoView)>,
    name: QualifiedName,
    class: ClassInfoView,
) -> Seq<(QualifiedName, ClassInfoView)> {
    match find_key(classes, name) {
        Some(i) => classes.update(i, (name, class)),
        None => classes.push((name, class)),
    }
}

pub open spec fn put_all(
    classes: Seq<(QualifiedName, ClassInfoView)>,
    rs: Seq<(QualifiedName, ClassInfoView)>,
) -> Seq<(QualifiedName, ClassInfoView)>
    decreases rs.len(),
{
    if rs.len() == 0 {
        classes
    } else {
        put(put_all(classes, rs.drop_last()), rs.last().0, rs.last().1)
    }
}

/// No two entries of the class map have the same name.
pub open spec fn unique_keys(classes: Seq<(QualifiedName, ClassInfoView)>) -> bool {
    forall|i: int, j: int| 0 <= i < j < classes.len() ==> classes[i].0 != classes[j].0
}

/// Every package declaration resolves.
pub open spec fn all_resolve(
    decls: Seq<PackageDeclView>,
    cache: Seq<(QualifiedName, ClassBody)>,
) -> bool {
    forall|k: int|
        0 <= k < decls.len() ==> (#[trigger] resolve_all(segments(decls[k].path), decls[k].classes, cache)) is Some
}

/// The model built from package declarations that all resolve.
pub open spec fn build(
    decls: Seq<PackageDeclView>,
    cache: Seq<(QualifiedName, ClassBody)>,
) -> RootView
    decreases decls.len(),
{
    if decls.len() == 0 {
        RootView { packages: Seq::empty(), classes: Seq::empty() }
    } else {
        let before = build(decls.drop_last(), cache);
        let p = decls.last();
        let rs = resolve_all(segments(p.path), p.classes, cache).unwrap();
        RootView {
            packages: declare(before.packages, p.path, names_of(rs)),
            classes: put_all(before.classes, rs),
        }
    }
}

/// `e` is the error of the first class declaration, in order, that does not
/// resolve.
pub open spec fn first_failure(
    decls: Seq<PackageDeclView>,
    cache: Seq<(QualifiedName, ClassBody)>,
    e: ReflectError,
) -> bool {
    exists|k: int, j: int|
        0 <= k < decls.len() && 0 <= j < decls[k].classes.len() && all_resolve(decls.take(k), cache)
            && (#[trigger] resolve_all(segments(decls[k].path), decls[k].classes.take(j), cache)) is Some
            && resolve(segments(decls[k].path), decls[k].classes[j], cache) is None && failure(
            segments(decls[k].path),
            decls[k].classes[j],
            e,
        )
}

// ---- building ----

impl JavaPackage {
    /// The texts of the package's segments.
    fn package_ids(&self) -> (r: Vec<Id>)
        ensures
            texts(r@) == segments(self@.path),
    {
        let ids = &self.package_name.ids;
        let mut r: Vec<Id> = Vec::new();
        let mut i: usize = 0;
        while i < ids.len()
            invariant
                i <= ids@.len(),
                r@.len() == i,
                forall|j: int| 0 <= j < i ==> #[trigger] r@[j]@ == ids@[j].text@,
            decreases ids@.len() - i,
        {
            r.push(ids[i].text.clone());
            i = i + 1;
        }
        assert(texts(r@) =~= segments(self@.path));
        r
    }

    /// The users give class names that may not include the package: a bare
    /// name is put in this package, a qualified one must name this package.
    fn make_absolute_dot_id(&self, span: proc_macro2::Span, class_dot_id: &DotId) -> (r: Result<
        DotId,
        ReflectError,
    >)
        ensures
            match absolute_name(segments(self@.path), class_dot_id@) {
                Some(n) => r matches Ok(d) && d@ == n,
                None => r matches Err(e) && e.span == span && (match e.kind {
                    ErrorKind::NameMismatch { expected_package } => texts(expected_package@)
                        == segments(self@.path),
                    _ => false,
                }),
            },
    {
        let package_ids = self.package_ids();
        let (package, class) = class_dot_id.split();
        if package.len() == 0 {
            return Ok(DotId::new(&package_ids, class));
        }
        if !crate::names::same_ids(&package_ids, package) {
            return Err(
                ReflectError {
                    span,
                    kind: ErrorKind::NameMismatch { expected_package: package_ids },
                },
            );
        }
        Ok(class_dot_id.copy())
    }

    /// The class that `decl` introduces, under its absolute name.
    fn resolve_class(&self, decl: &ClassDecl, reflector: &Reflector) -> (r: Result<
        (DotId, ClassInfo),
        ReflectError,
    >)
        ensures
            match resolve(segments(self@.path), decl@, reflector@.cache) {
                Some(c) => r matches Ok(d) && d.0@ == c.0 && d.1@ == c.1,
                None => r matches Err(e) && failure(segments(self@.path), decl@, e),
            },
    {
        match &decl.kind {
            ClassDeclKind::Reflected(c) => {
                let dot_id = self.make_absolute_dot_id(c.span, &c.name)?;
                let info = reflector.reflect(&dot_id, c.span)?;
                let mut class = info.to_class_info(c.span);
                class.kind = c.kind;
                Ok((dot_id, class))
            },
            ClassDeclKind::Specified(c) => {
                let dot_id = self.make_absolute_dot_id(c.span, &c.name)?;
                let mut class = c.duplicate();
                class.name = dot_id.copy();
                Ok((dot_id, class))
            },
        }
    }
}

/// The mathematical values of resolved classes.
pub open spec fn resolved_view(v: Seq<(DotId, ClassInfo)>) -> Seq<(QualifiedName, ClassInfoView)> {
    v.map_values(|e: (DotId, ClassInfo)| (e.0@, e.1@))
}

pub open spec fn nodes_view(v: Seq<SpannedPackageInfo>) -> Seq<NodeView> {
    v.map_values(|p: SpannedPackageInfo| p@)
}

pub open spec fn map_view(v: Seq<(DotId, Arc<ClassInfo>)>) -> Seq<(QualifiedName, ClassInfoView)> {
    v.map_values(|e: (DotId, Arc<ClassInfo>)| (e.0@, e.1@))
}

pub open spec fn parent_view(p: Option<usize>) -> Option<int> {
    match p {
        Some(i) => Some(i as int),
        None => None,
    }
}

impl JavaPackage {
    /// Resolves the package's classes in order, stopping at the first that
    /// does not resolve.
    fn resolve_classes(&self, reflector: &Reflector) -> (r: Result<
        Vec<(DotId, ClassInfo)>,
        ReflectError,
    >)
        ensures
            match r {
                Ok(v) => resolve_all(segments(self@.path), self@.classes, reflector@.cache) == Some(
                    resolved_view(v@),
                ),
                Err(e) => exists|j: int|
                    0 <= j < self@.classes.len() && (#[trigger] resolve_all(
                        segments(self@.path),
                        self@.classes.take(j),
                        reflector@.cache,
                    )) is Some && resolve(segments(self@.path), self@.classes[j], reflector@.cache)
                        is None && failure(segments(self@.path), self@.classes[j], e),
            },
    {
        let ghost package = segments(self@.path);
        let ghost decls = self@.classes;
        let ghost cache = reflector@.cache;
        let mut out: Vec<(DotId, ClassInfo)> = Vec::new();
        let mut i: usize = 0;
        assert(decls.take(0) =~= Seq::<ClassDeclView>::empty());
        while i < self.classes.len()
            invariant
                i <= self.classes@.len(),
                decls == self@.classes,
                package == segments(self@.path),
                cache == reflector@.cache,
                resolve_all(package, decls.take(i as int), cache) == Some(resolved_view(out@)),
            decreases self.classes@.len() - i,
        {
            assert(decls.take(i + 1).drop_last() =~= decls.take(i as int));
            assert(decls[i as int] == self.classes@[i as int]@);
            match self.resolve_class(&self.classes[i], reflector) {
                Ok(c) => {
                    out.push(c);
                    assert(resolved_view(out@) =~= resolve_all(package, decls.take(i as int), cache).unwrap().push(
                        (c.0@, c.1@),
                    ));
                },
                Err(e) => {
                    return Err(e);
                },
            }
            i = i + 1;
        }
        assert(decls.take(i as int) =~= decls);
        Ok(out)
    }
}

/// The index of the child `name` of `parent`, if the tree has it.
fn find_child_index(nodes: &Vec<SpannedPackageInfo>, parent: Option<usize>, name: &Id) -> (r: Option<
    usize,
>)
    ensures
        match r {
            Some(i) => i < nodes@.len() && find_child(nodes_view(nodes@), parent_view(parent), name@)
                == Some(i as int),
            None => find_child(nodes_view(nodes@), parent_view(parent), name@) is None,
        },
{
    let ghost all = nodes_view(nodes@);
    let mut i: usize = 0;
    assert(all.take(0) =~= Seq::<NodeView>::empty());
    while i < nodes.len()
        invariant
            i <= nodes@.len(),
            all == nodes_view(nodes@),
            find_child(all.take(i as int), parent_view(parent), name@) is None,
        decreases nodes@.len() - i,
    {
        assert(all.take(i + 1).drop_last() =~= all.take(i as int));
        let same_parent = match (nodes[i].parent, parent) {
            (Some(a), Some(b)) => a == b,
            (None, None) => true,
            _ => false,
        };
        if same_parent && nodes[i].name == *name {
            proof {
                lemma_find_child_extend(all.take(i + 1), all, parent_view(parent), name@);
            }
            return Some(i);
        }
        i = i + 1;
    }
    assert(all.take(i as int) =~= all);
    None
}

/// Steps into the child `segment` of `parent`, adding it when missing.
fn enter_package(nodes: &mut Vec<SpannedPackageInfo>, parent: Option<usize>, segment: &Ident) -> (r:
    usize)
    ensures
        (nodes_view(final(nodes)@), r as int) == enter(
            nodes_view(old(nodes)@),
            parent_view(parent),
            (segment.text@, segment.span),
        ),
        r < final(nodes)@.len(),
{
    match find_child_index(nodes, parent, &segment.text) {
        Some(i) => i,
        None => {
            let ghost before = nodes_view(nodes@);
            let i = nodes.len();
            let node = SpannedPackageInfo {
                name: segment.text.clone(),
                span: segment.span,
                parent,
                classes: Vec::new(),
            };
            assert(node@.classes =~= Seq::<QualifiedName>::empty());
            nodes.push(node);
            assert(nodes_view(nodes@) =~= before.push(node@));
            i
        },
    }
}

impl JavaPackage {
    /// Walks down `name` from the top of the tree, adding the packages that
    /// are missing; returns the node of the last segment.
    fn to_spanned_packages(&self, name: &Vec<Ident>, map: &mut Vec<SpannedPackageInfo>) -> (r: usize)
        requires
            name@.len() > 0,
        ensures
            (nodes_view(final(map)@), r as int) == descend(nodes_view(old(map)@), None, path_of(name@)),
            r < final(map)@.len(),
    {
        let ghost path = path_of(name@);
        let mut parent: Option<usize> = None;
        let mut i: usize = 0;
        assert(path.subrange(0, path.len() as int) =~= path);
        loop
            invariant
                i < name@.len(),
                path == path_of(name@),
                parent matches Some(p) ==> p < map@.len(),
                descend(nodes_view(old(map)@), None, path) == descend(
                    nodes_view(map@),
                    parent_view(parent),
                    path.subrange(i as int, path.len() as int),
                ),
            decreases name@.len() - i,
        {
            let ghost rest = path.subrange(i as int, path.len() as int);
            assert(rest[0] == (name@[i as int].text@, name@[i as int].span));
            let idx = enter_package(map, parent, &name[i]);
            if i == name.len() - 1 {
                return idx;
            }
            assert(rest.drop_first() =~= path.subrange(i + 1, path.len() as int));
            parent = Some(idx);
            i = i + 1;
        }
    }
}

/// The index of the entry for `name`, if the map has one.
fn find_class(classes: &Vec<(DotId, Arc<ClassInfo>)>, name: &DotId) -> (r: Option<usize>)
    ensures
        match r {
            Some(i) => i < classes@.len() && find_key(map_view(classes@), name@) == Some(i as int),
            None => find_key(map_view(classes@), name@) is None,
        },
{
    let ghost all = map_view(classes@);
    let mut i: usize = classes.len();
    assert(all.take(i as int) =~= all);
    while i > 0
        invariant
            i <= classes@.len(),
            all == map_view(classes@),
            find_key(all, name@) == find_key(all.take(i as int), name@),
        decreases i,
    {
        assert(all.take(i as int).drop_last() =~= all.take(i - 1));
        if classes[i - 1].0.same_as(name) {
            return Some(i - 1);
        }
        i = i - 1;
    }
    None
}

/// Declares `info` under `name`, in place of an earlier class of that name.
fn insert_class(classes: &mut Vec<(DotId, Arc<ClassInfo>)>, name: DotId, info: ClassInfo)
    ensures
        map_view(final(classes)@) == put(map_view(old(classes)@), name@, info@),
{
    let ghost before = map_view(classes@);
    let ghost entry = (name@, info@);
    match find_class(classes, &name) {
        Some(i) => {
            classes.remove(i);
            classes.insert(i, (name, Arc::new(info)));
            assert(map_view(classes@) =~= before.update(i as int, entry));
        },
        None => {
            classes.push((name, Arc::new(info)));
            assert(map_view(classes@) =~= before.push(entry));
        },
    }
}

impl JavaPackage {
    /// Records resolved classes: their names in the package node `package`,
    /// in order, and the classes in the class map.
    fn insert_classes_into_root_map(
        &self,
        resolved: &Vec<(DotId, ClassInfo)>,
        package: usize,
        map: &mut Vec<SpannedPackageInfo>,
        classes: &mut Vec<(DotId, Arc<ClassInfo>)>,
    )
        requires
            package < old(map)@.len(),
        ensures
            nodes_view(final(map)@) == nodes_view(old(map)@).update(
                package as int,
                NodeView {
                    classes: nodes_view(old(map)@)[package as int].classes + names_of(
                        resolved_view(resolved@),
                    ),
                    ..nodes_view(old(map)@)[package as int]
                },
            ),
            map_view(final(classes)@) == put_all(map_view(old(classes)@), resolved_view(resolved@)),
    {
        let ghost rs = resolved_view(resolved@);
        let ghost nodes0 = nodes_view(map@);
        let ghost classes0 = map_view(classes@);
        let mut node = map.remove(package);
        let ghost names0 = node@.classes;
        let mut i: usize = 0;
        while i < resolved.len()
            invariant
                i <= resolved@.len(),
                rs == resolved_view(resolved@),
                node@.name == nodes0[package as int].name,
                node@.span == nodes0[package as int].span,
                node@.parent == nodes0[package as int].parent,
                names0 == nodes0[package as int].classes,
                node@.classes == names0 + rs.take(i as int).map_values(
                    |r: (QualifiedName, ClassInfoView)| r.0,
                ),
                map_view(classes@) == put_all(classes0, rs.take(i as int)),
            decreases resolved@.len() - i,
        {
            let ghost old_names = node@.classes;
            node.classes.push(resolved[i].0.copy());
            assert(node@.classes =~= old_names.push(rs[i as int].0));
            assert(rs.take(i + 1).drop_last() =~= rs.take(i as int));
            assert(rs.take(i + 1).map_values(|r: (QualifiedName, ClassInfoView)| r.0) =~= rs.take(
                i as int,
            ).map_values(|r: (QualifiedName, ClassInfoView)| r.0).push(rs[i as int].0));
            insert_class(classes, resolved[i].0.copy(), resolved[i].1.duplicate());
            i = i + 1;
        }
        assert(rs.take(i as int) =~= rs);
        let ghost done = node@;
        map.insert(package, node);
        assert(nodes_view(map@) =~= nodes0.update(package as int, done));
    }
}

proof fn lemma_find_key_none(classes: Seq<(QualifiedName, ClassInfoView)>, name: QualifiedName)
    requires
        find_key(classes, name) is None,
    ensures
        forall|i: int| 0 <= i < classes.len() ==> classes[i].0 != name,
    decreases classes.len(),
{
    if classes.len() > 0 {
        lemma_find_key_none(classes.drop_last(), name);
        assert forall|i: int| 0 <= i < classes.len() implies classes[i].0 != name by {
            if i < classes.len() - 1 {
                assert(classes[i] == classes.drop_last()[i]);
            }
        }
    }
}

proof fn lemma_find_key_some(classes: Seq<(QualifiedName, ClassInfoView)>, name: QualifiedName)
    requires
        find_key(classes, name) is Some,
    ensures
        0 <= find_key(classes, name).unwrap() < classes.len(),
        classes[find_key(classes, name).unwrap()].0 == name,
    decreases classes.len(),
{
    if classes.len() > 0 && classes.last().0 != name {
        lemma_find_key_some(classes.drop_last(), name);
    }
}

/// Declaring a class, under a new name or over an old one, never makes two
/// entries of the class map share a name.
pub proof fn lemma_put_keeps_keys_unique(
    classes: Seq<(QualifiedName, ClassInfoView)>,
    name: QualifiedName,
    class: ClassInfoView,
)
    requires
        unique_keys(classes),
    ensures
        unique_keys(put(classes, name, class)),
        find_key(put(classes, name, class), name) is Some,
{
    match find_key(classes, name) {
        Some(i) => {
            lemma_find_key_some(classes, name);
            let after = classes.update(i, (name, class));
            assert forall|a: int, b: int| 0 <= a < b < after.len() implies after[a].0 != after[b].0 by {
                assert(classes[a].0 != classes[b].0);
            }
            lemma_find_key_exists(after, i);
        },
        None => {
            lemma_find_key_none(classes, name);
            assert(classes.push((name, class)).drop_last() =~= classes);
        },
    }
}

proof fn lemma_find_key_exists(classes: Seq<(QualifiedName, ClassInfoView)>, i: int)
    requires
        0 <= i < classes.len(),
    ensures
        find_key(classes, classes[i].0) is Some,
    decreases classes.len(),
{
    if classes.last().0 != classes[i].0 {
        assert(classes.drop_last()[i] == classes[i]);
        lemma_find_key_exists(classes.drop_last(), i);
    }
}

proof fn lemma_put_all_keeps_keys_unique(
    classes: Seq<(QualifiedName, ClassInfoView)>,
    rs: Seq<(QualifiedName, ClassInfoView)>,
)
    requires
        unique_keys(classes),
    ensures
        unique_keys(put_all(classes, rs)),
    decreases rs.len(),
{
    if rs.len() > 0 {
        lemma_put_all_keeps_keys_unique(classes, rs.drop_last());
        lemma_put_keeps_keys_unique(put_all(classes, rs.drop_last()), rs.last().0, rs.last().1);
    }
}

impl DuchessDeclaration {
    /// Every package names at least one segment.
    pub open spec fn wf(&self) -> bool {
        forall|k: int| 0 <= k < self.packages@.len() ==> #[trigger] self.packages@[k].package_name.ids@.len() > 0
    }

    /// Builds the package tree and the class map from every declaration, in
    /// order, with the reflected classes taken from `reflector`'s cache.
    /// Fails with the error of the first declaration that does not resolve.
    pub fn to_root_map(&self, reflector: &Reflector) -> (r: Result<RootMap, ReflectError>)
        requires
            self.wf(),
        ensures
            match r {
                Ok(root) => all_resolve(self@, reflector@.cache) && root@ == build(self@, reflector@.cache)
                    && unique_keys(root@.classes) && distinct_children(root@.packages)
                    && keyed_by_name(root@.classes),
                Err(e) => first_failure(self@, reflector@.cache, e),
            },
    {
        let ghost decls = self@;
        let ghost cache = reflector@.cache;
        proof {
            use_type_invariant(reflector);
        }
        assert(names_match(cache));
        let mut subpackages: Vec<SpannedPackageInfo> = Vec::new();
        let mut classes: Vec<(DotId, Arc<ClassInfo>)> = Vec::new();
        let mut k: usize = 0;
        assert(decls.take(0) =~= Seq::<PackageDeclView>::empty());
        assert(nodes_view(subpackages@) =~= Seq::<NodeView>::empty());
        assert(map_view(classes@) =~= Seq::<(QualifiedName, ClassInfoView)>::empty());
        while k < self.packages.len()
            invariant
                k <= self.packages@.len(),
                decls == self@,
                cache == reflector@.cache,
                self.wf(),
                all_resolve(decls.take(k as int), cache),
                build(decls.take(k as int), cache) == (RootView {
                    packages: nodes_view(subpackages@),
                    classes: map_view(classes@),
                }),
                unique_keys(map_view(classes@)),
            decreases self.packages@.len() - k,
        {
            let package = &self.packages[k];
            assert(decls[k as int] == package@);
            assert(decls.take(k + 1).drop_last() =~= decls.take(k as int));
            let resolved = match package.resolve_classes(reflector) {
                Ok(v) => v,
                Err(e) => {
                    assert(first_failure(decls, cache, e));
                    return Err(e);
                },
            };
            let ghost nodes0 = nodes_view(subpackages@);
            let ghost classes0 = map_view(classes@);
            let idx = package.to_spanned_packages(&package.package_name.ids, &mut subpackages);
            package.insert_classes_into_root_map(&resolved, idx, &mut subpackages, &mut classes);
            proof {
                lemma_put_all_keeps_keys_unique(classes0, resolved_view(resolved@));
                assert forall|j: int| 0 <= j < k + 1 implies (#[trigger] resolve_all(
                    segments(decls.take(k + 1)[j].path),
                    decls.take(k + 1)[j].classes,
                    cache,
                )) is Some by {
                    if j < k {
                        assert(decls.take(k + 1)[j] == decls.take(k as int)[j]);
                    }
                }
            }
            k = k + 1;
        }
        assert(decls.take(k as int) =~= decls);
        proof {
            lemma_build_distinct(decls, cache);
            lemma_build_keyed(decls, cache);
        }
        Ok(RootMap { subpackages, classes })
    }
}

/// `b` starts with nodes of the same names and parents as `a`.
pub open spec fn shape_prefix(a: Seq<NodeView>, b: Seq<NodeView>) -> bool {
    a.len() <= b.len() && forall|i: int|
        0 <= i < a.len() ==> #[trigger] a[i].name == b[i].name && a[i].parent == b[i].parent
}

/// Adding nodes, or changing class lists, never moves a child that was found.
proof fn lemma_find_child_extend(a: Seq<NodeView>, b: Seq<NodeView>, parent: Option<int>, name: Seq<char>)
    requires
        shape_prefix(a, b),
        find_child(a, parent, name) is Some,
    ensures
        find_child(b, parent, name) == find_child(a, parent, name),
    decreases b.len(),
{
    if b.len() > a.len() {
        lemma_find_child_extend(a, b.drop_last(), parent, name);
    } else {
        assert(a.len() > 0);
        assert(shape_prefix(a.drop_last(), b.drop_last()));
        match find_child(a.drop_last(), parent, name) {
            Some(i) => {
                lemma_find_child_extend(a.drop_last(), b.drop_last(), parent, name);
            },
            None => {
                lemma_find_child_none_same_shape(a.drop_last(), b.drop_last(), parent, name);
                assert(a.last().name == b.last().name && a.last().parent == b.last().parent) by {
                    assert(a[a.len() - 1].name == b[a.len() - 1].name);
                }
            },
        }
    }
}

proof fn lemma_find_child_none_same_shape(
    a: Seq<NodeView>,
    b: Seq<NodeView>,
    parent: Option<int>,
    name: Seq<char>,
)
    requires
        shape_prefix(a, b),
        a.len() == b.len(),
        find_child(a, parent, name) is None,
    ensures
        find_child(b, parent, name) is None,
    decreases a.len(),
{
    if a.len() > 0 {
        assert(shape_prefix(a.drop_last(), b.drop_last()));
        lemma_find_child_none_same_shape(a.drop_last(), b.drop_last(), parent, name);
        assert(a[a.len() - 1].name == b[a.len() - 1].name);
    }
}

/// Walking down a path only adds nodes, and ends inside the tree.
proof fn lemma_descend_extends(nodes: Seq<NodeView>, parent: Option<int>, path: Seq<(Seq<char>, proc_macro2::Span)>)
    requires
        path.len() > 0,
    ensures
        shape_prefix(nodes, descend(nodes, parent, path).0),
        0 <= descend(nodes, parent, path).1 < descend(nodes, parent, path).0.len(),
    decreases path.len(),
{
    let (next, i) = enter(nodes, parent, path[0]);
    assert(shape_prefix(nodes, next));
    lemma_find_child_range(nodes, parent, path[0].0);
    if path.len() > 1 {
        lemma_descend_extends(next, Some(i), path.drop_first());
    }
}

proof fn lemma_find_child_range(nodes: Seq<NodeView>, parent: Option<int>, name: Seq<char>)
    ensures
        find_child(nodes, parent, name) matches Some(i) ==> 0 <= i < nodes.len(),
    decreases nodes.len(),
{
    if nodes.len() > 0 {
        lemma_find_child_range(nodes.drop_last(), parent, name);
    }
}

/// The node that `enter` steps into is the child it looked for.
proof fn lemma_enter_finds(nodes: Seq<NodeView>, parent: Option<int>, segment: (Seq<char>, proc_macro2::Span))
    ensures
        find_child(enter(nodes, parent, segment).0, parent, segment.0) == Some(
            enter(nodes, parent, segment).1,
        ),
{
    if find_child(nodes, parent, segment.0) is None {
        let next = enter(nodes, parent, segment).0;
        assert(next.drop_last() =~= nodes);
    }
}

/// Walking down a path a second time, in a tree of the same shape, adds
/// nothing and ends at the same node.
proof fn lemma_descend_again(
    nodes: Seq<NodeView>,
    parent: Option<int>,
    path: Seq<(Seq<char>, proc_macro2::Span)>,
    again: Seq<(Seq<char>, proc_macro2::Span)>,
    tree: Seq<NodeView>,
)
    requires
        path.len() > 0,
        segments(again) == segments(path),
        shape_prefix(descend(nodes, parent, path).0, tree),
        tree.len() == descend(nodes, parent, path).0.len(),
    ensures
        descend(tree, parent, again) == (tree, descend(nodes, parent, path).1),
    decreases path.len(),
{
    let (next, j) = enter(nodes, parent, path[0]);
    assert(again.len() == path.len()) by {
        assert(segments(again).len() == again.len());
        assert(segments(path).len() == path.len());
    }
    assert(again[0].0 == path[0].0) by {
        assert(segments(again)[0] == segments(path)[0]);
    }
    lemma_enter_finds(nodes, parent, path[0]);
    if path.len() == 1 {
        lemma_find_child_extend(next, tree, parent, path[0].0);
    } else {
        let n1 = descend(next, Some(j), path.drop_first()).0;
        lemma_descend_extends(next, Some(j), path.drop_first());
        assert(shape_prefix(next, tree)) by {
            assert forall|i: int| 0 <= i < next.len() implies #[trigger] next[i].name == tree[i].name
                && next[i].parent == tree[i].parent by {
                assert(next[i].name == n1[i].name);
                assert(n1[i].name == tree[i].name);
            }
        }
        lemma_find_child_extend(next, tree, parent, path[0].0);
        assert(segments(again.drop_first()) =~= segments(path.drop_first())) by {
            assert forall|k: int| 0 <= k < path.len() - 1 implies segments(again.drop_first())[k]
                == segments(path.drop_first())[k] by {
                assert(segments(again)[k + 1] == segments(path)[k + 1]);
            }
        }
        lemma_descend_again(next, Some(j), path.drop_first(), again.drop_first(), tree);
    }
}

/// Declaring classes under a package path that was declared before adds no
/// node: the package's node gets both declarations' classes, in order, as if
/// they had been declared together.
pub proof fn lemma_package_merge(
    nodes: Seq<NodeView>,
    path: Seq<(Seq<char>, proc_macro2::Span)>,
    again: Seq<(Seq<char>, proc_macro2::Span)>,
    first: Seq<QualifiedName>,
    second: Seq<QualifiedName>,
)
    requires
        path.len() > 0,
        segments(again) == segments(path),
    ensures
        declare(declare(nodes, path, first), again, second) == declare(nodes, path, first + second),
        declare(declare(nodes, path, first), again, second).len() == declare(nodes, path, first).len(),
        descend(declare(nodes, path, first), None, again) == (
            declare(nodes, path, first),
            descend(nodes, None, path).1,
        ),
{
    let (n1, i1) = descend(nodes, None, path);
    lemma_descend_extends(nodes, None, path);
    let t1 = declare(nodes, path, first);
    assert(shape_prefix(n1, t1)) by {
        assert forall|i: int| 0 <= i < n1.len() implies #[trigger] n1[i].name == t1[i].name
            && n1[i].parent == t1[i].parent by {
            if i == i1 {
            }
        }
    }
    lemma_descend_again(nodes, None, path, again, t1);
    assert(t1[i1].classes + second =~= n1[i1].classes + (first + second));
    assert(declare(t1, again, second) =~= declare(nodes, path, first + second));
}

/// A class written by its bare name inside a package, or by a name that
/// repeats that package, resolves to the package followed by the name; a
/// name that gives any other package is refused.
pub proof fn lemma_name_resolution(package: Seq<Seq<char>>, class: Seq<char>, other: Seq<Seq<char>>)
    requires
        other.len() > 0,
        other != package,
    ensures
        absolute_name(package, QualifiedName { package: Seq::empty(), class }) == Some(
            QualifiedName { package, class },
        ),
        package.len() > 0 ==> absolute_name(package, QualifiedName { package, class }) == Some(
            QualifiedName { package, class },
        ),
        absolute_name(package, QualifiedName { package: other, class }) is None,
{
}

/// No package has two children of the same name, and there are no two
/// top-level packages of the same name.
pub open spec fn distinct_children(nodes: Seq<NodeView>) -> bool {
    forall|i: int, j: int|
        0 <= i < j < nodes.len() ==> !(nodes[i].parent == nodes[j].parent && nodes[i].name
            == nodes[j].name)
}

proof fn lemma_find_child_none(nodes: Seq<NodeView>, parent: Option<int>, name: Seq<char>)
    requires
        find_child(nodes, parent, name) is None,
    ensures
        forall|i: int| 0 <= i < nodes.len() ==> !(nodes[i].parent == parent && nodes[i].name == name),
    decreases nodes.len(),
{
    if nodes.len() > 0 {
        lemma_find_child_none(nodes.drop_last(), parent, name);
        assert forall|i: int| 0 <= i < nodes.len() implies !(nodes[i].parent == parent
            && nodes[i].name == name) by {
            if i < nodes.len() - 1 {
                assert(nodes[i] == nodes.drop_last()[i]);
            }
        }
    }
}

proof fn lemma_descend_distinct(
    nodes: Seq<NodeView>,
    parent: Option<int>,
    path: Seq<(Seq<char>, proc_macro2::Span)>,
)
    requires
        distinct_children(nodes),
    ensures
        distinct_children(descend(nodes, parent, path).0),
    decreases path.len(),
{
    if path.len() > 0 {
        let (next, i) = enter(nodes, parent, path[0]);
        if find_child(nodes, parent, path[0].0) is None {
            lemma_find_child_none(nodes, parent, path[0].0);
            assert(distinct_children(next)) by {
                assert forall|a: int, b: int| 0 <= a < b < next.len() implies !(next[a].parent
                    == next[b].parent && next[a].name == next[b].name) by {
                    if b == nodes.len() {
                        assert(next[a] == nodes[a]);
                    } else {
                        assert(next[a] == nodes[a] && next[b] == nodes[b]);
                    }
                }
            }
        }
        if path.len() > 1 {
            lemma_descend_distinct(next, Some(i), path.drop_first());
        }
    }
}

proof fn lemma_declare_distinct(
    nodes: Seq<NodeView>,
    path: Seq<(Seq<char>, proc_macro2::Span)>,
    names: Seq<QualifiedName>,
)
    requires
        distinct_children(nodes),
        path.len() > 0,
    ensures
        distinct_children(declare(nodes, path, names)),
{
    lemma_descend_distinct(nodes, None, path);
    lemma_descend_extends(nodes, None, path);
    let (next, i) = descend(nodes, None, path);
    let after = declare(nodes, path, names);
    assert forall|a: int, b: int| 0 <= a < b < after.len() implies !(after[a].parent
        == after[b].parent && after[a].name == after[b].name) by {
        assert(after[a].parent == next[a].parent && after[a].name == next[a].name);
        assert(after[b].parent == next[b].parent && after[b].name == next[b].name);
    }
}

/// The package tree built from any declarations holds each package once.
pub proof fn lemma_build_distinct(decls: Seq<PackageDeclView>, cache: Seq<(QualifiedName, ClassBody)>)
    requires
        forall|k: int| 0 <= k < decls.len() ==> #[trigger] decls[k].path.len() > 0,
    ensures
        distinct_children(build(decls, cache).packages),
    decreases decls.len(),
{
    if decls.len() > 0 {
        assert forall|k: int| 0 <= k < decls.drop_last().len() implies #[trigger] decls.drop_last()[k].path.len() > 0 by {
            assert(decls.drop_last()[k] == decls[k]);
        }
        lemma_build_distinct(decls.drop_last(), cache);
        let p = decls.last();
        let rs = resolve_all(segments(p.path), p.classes, cache).unwrap();
        lemma_declare_distinct(
            build(decls.drop_last(), cache).packages,
            p.path,
            names_of(rs),
        );
    }
}

/// A class declared under a name that is already in the class map replaces
/// the earlier class in place; under a new name it is added at the end. The
/// map keeps exactly one entry per name, holding the latest class, and every
/// other entry stays as it was.
pub proof fn lemma_later_declaration_wins(
    classes: Seq<(QualifiedName, ClassInfoView)>,
    name: QualifiedName,
    class: ClassInfoView,
)
    requires
        unique_keys(classes),
    ensures
        unique_keys(put(classes, name, class)),
        put(classes, name, class).len() == classes.len() + (if find_key(classes, name) is Some {
            0int
        } else {
            1int
        }),
        forall|j: int|
            0 <= j < put(classes, name, class).len() && (#[trigger] put(classes, name, class)[j]).0
                == name ==> put(classes, name, class)[j].1 == class,
        exists|j: int|
            0 <= j < put(classes, name, class).len() && (#[trigger] put(classes, name, class)[j])
                == (name, class),
        forall|j: int|
            0 <= j < classes.len() && (#[trigger] classes[j]).0 != name ==> put(classes, name, class)[j]
                == classes[j],
{
    lemma_put_keeps_keys_unique(classes, name, class);
    let after = put(classes, name, class);
    match find_key(classes, name) {
        Some(i) => {
            lemma_find_key_some(classes, name);
            assert(after[i] == (name, class));
        },
        None => {
            lemma_find_key_none(classes, name);
            assert(after[classes.len() as int] == (name, class));
        },
    }
}

/// Each class in the map carries the name it is keyed by.
pub open spec fn keyed_by_name(classes: Seq<(QualifiedName, ClassInfoView)>) -> bool {
    forall|i: int| 0 <= i < classes.len() ==> #[trigger] classes[i].1.body.name == classes[i].0
}

proof fn lemma_cached_name(cache: Seq<(QualifiedName, ClassBody)>, name: QualifiedName)
    requires
        names_match(cache),
    ensures
        cached(cache, name) matches Some(b) ==> b.name == name,
    decreases cache.len(),
{
    if cache.len() > 0 {
        assert(cache.last().1.name == cache.last().0) by {
            assert(cache[cache.len() - 1].1.name == cache[cache.len() - 1].0);
        }
        assert(names_match(cache.drop_last())) by {
            assert forall|i: int| 0 <= i < cache.drop_last().len() implies #[trigger] cache.drop_last()[i].1.name
                == cache.drop_last()[i].0 by {
                assert(cache.drop_last()[i] == cache[i]);
            }
        }
        lemma_cached_name(cache.drop_last(), name);
    }
}

proof fn lemma_resolve_all_keyed(
    package: Seq<Seq<char>>,
    decls: Seq<ClassDeclView>,
    cache: Seq<(QualifiedName, ClassBody)>,
)
    requires
        names_match(cache),
        resolve_all(package, decls, cache) is Some,
    ensures
        keyed_by_name(resolve_all(package, decls, cache).unwrap()),
    decreases decls.len(),
{
    if decls.len() > 0 {
        lemma_resolve_all_keyed(package, decls.drop_last(), cache);
        match decls.last() {
            ClassDeclView::Reflected { span, name, kind } => {
                if let Some(n) = absolute_name(package, name) {
                    lemma_cached_name(cache, n);
                }
            },
            ClassDeclView::Specified(c) => {},
        }
        let rs = resolve_all(package, decls.drop_last(), cache).unwrap();
        let all = resolve_all(package, decls, cache).unwrap();
        assert forall|i: int| 0 <= i < all.len() implies #[trigger] all[i].1.body.name == all[i].0 by {
            if i < rs.len() {
                assert(all[i] == rs[i]);
            }
        }
    }
}

proof fn lemma_put_all_keyed(
    classes: Seq<(QualifiedName, ClassInfoView)>,
    rs: Seq<(QualifiedName, ClassInfoView)>,
)
    requires
        keyed_by_name(classes),
        keyed_by_name(rs),
    ensures
        keyed_by_name(put_all(classes, rs)),
    decreases rs.len(),
{
    if rs.len() > 0 {
        assert(keyed_by_name(rs.drop_last())) by {
            assert forall|i: int| 0 <= i < rs.drop_last().len() implies #[trigger] rs.drop_last()[i].1.body.name
                == rs.drop_last()[i].0 by {
                assert(rs.drop_last()[i] == rs[i]);
            }
        }
        lemma_put_all_keyed(classes, rs.drop_last());
        let before = put_all(classes, rs.drop_last());
        let last = rs[rs.len() - 1];
        assert(last.1.body.name == last.0);
        let after = put(before, last.0, last.1);
        match find_key(before, last.0) {
            Some(j) => {
                lemma_find_key_some(before, last.0);
                assert forall|i: int| 0 <= i < after.len() implies #[trigger] after[i].1.body.name
                    == after[i].0 by {
                    if i != j {
                        assert(after[i] == before[i]);
                        assert(before[i].1.body.name == before[i].0);
                    }
                }
            },
            None => {
                assert forall|i: int| 0 <= i < after.len() implies #[trigger] after[i].1.body.name
                    == after[i].0 by {
                    if i < before.len() {
                        assert(after[i] == before[i]);
                        assert(before[i].1.body.name == before[i].0);
                    }
                }
            },
        }
    }
}

/// Every class in a built class map carries the name it is keyed by, given
/// a cache whose descriptions carry their keys.
pub proof fn lemma_build_keyed(decls: Seq<PackageDeclView>, cache: Seq<(QualifiedName, ClassBody)>)
    requires
        names_match(cache),
        all_resolve(decls, cache),
    ensures
        keyed_by_name(build(decls, cache).classes),
    decreases decls.len(),
{
    if decls.len() > 0 {
        assert(all_resolve(decls.drop_last(), cache)) by {
            assert forall|k: int| 0 <= k < decls.drop_last().len() implies (#[trigger] resolve_all(
                segments(decls.drop_last()[k].path),
                decls.drop_last()[k].classes,
                cache,
            )) is Some by {
                assert(decls.drop_last()[k] == decls[k]);
            }
        }
        lemma_build_keyed(decls.drop_last(), cache);
        let p = decls.last();
        assert(resolve_all(segments(decls[decls.len() - 1].path), decls[decls.len() - 1].classes, cache) is Some);
        lemma_resolve_all_keyed(segments(p.path), p.classes, cache);
        lemma_put_all_keyed(
            build(decls.drop_last(), cache).classes,
            resolve_all(segments(p.path), p.classes, cache).unwrap(),
        );
    }
}

/// The names of resolved classes, in order.
pub open spec fn names_of(rs: Seq<(QualifiedName, ClassInfoView)>) -> Seq<QualifiedName> {
    rs.map_values(|r: (QualifiedName, ClassInfoView)| r.0)
}

/// Two declaration blocks under the same package path build the same tree as
/// one block holding both blocks' classes: one node per package, and the
/// package's node lists the first block's classes, then the second's.
pub proof fn lemma_two_blocks_merge(decls: Seq<PackageDeclView>, cache: Seq<(QualifiedName, ClassBody)>)
    requires
        decls.len() == 2,
        decls[0].path.len() > 0,
        segments(decls[1].path) == segments(decls[0].path),
        all_resolve(decls, cache),
    ensures
        build(decls, cache).packages == declare(
            Seq::empty(),
            decls[0].path,
            names_of(resolve_all(segments(decls[0].path), decls[0].classes, cache).unwrap())
                + names_of(resolve_all(segments(decls[1].path), decls[1].classes, cache).unwrap()),
        ),
{
    let first = names_of(resolve_all(segments(decls[0].path), decls[0].classes, cache).unwrap());
    let second = names_of(resolve_all(segments(decls[1].path), decls[1].classes, cache).unwrap());
    assert(decls.drop_last().drop_last() =~= Seq::<PackageDeclView>::empty());
    assert(decls.drop_last().last() == decls[0]);
    assert(build(decls.drop_last().drop_last(), cache).packages == Seq::<NodeView>::empty());
    assert(decls.last() == decls[1]);
    assert(build(decls.drop_last(), cache).packages == declare(Seq::empty(), decls[0].path, first));
    lemma_package_merge(Seq::empty(), decls[0].path, decls[1].path, first, second);
}

} // verus!

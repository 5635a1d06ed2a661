use duchess_reflect::class_info::{
    ClassInfo, ClassInfoAccessors, ClassKind, Constructor, Flags, JavapClassInfo, Method,
    Privacy, ScalarType, Type,
};
use duchess_reflect::names::{DotId, Ident};
use duchess_reflect::packages::{
    ClassDecl, ClassDeclKind, DuchessDeclaration, JavaPackage, PackageName, ReflectedClass,
    RootMap,
};
use duchess_reflect::reflect::{
    tool_output, Configuration, ErrorKind, ReflectError, Reflector, ToolCommand, ToolRun,
};
use duchess_reflect::selector::{ClassName, MethodSelector, ReflectedMethod};
use proc_macro2::Span;

fn span() -> Span {
    Span::call_site()
}

fn strings(v: &[&str]) -> Vec<String> {
    v.iter().map(|s| s.to_string()).collect()
}

fn dot_id(package: &[&str], class: &str) -> DotId {
    DotId { package: strings(package), class: class.to_string() }
}

fn flags(is_static: bool) -> Flags {
    Flags {
        privacy: Privacy::Public,
        is_static,
        is_final: false,
        is_synchronized: false,
        is_native: false,
        is_abstract: false,
    }
}

fn constructor(argument_tys: Vec<Type>) -> Constructor {
    Constructor { flags: flags(false), generics: vec![], argument_tys }
}

fn method(name: &str, is_static: bool, argument_tys: Vec<Type>) -> Method {
    Method {
        name: name.to_string(),
        flags: flags(is_static),
        generics: vec![],
        argument_tys,
        return_ty: None,
    }
}

fn string_ty() -> Type {
    Type::Class(dot_id(&["java", "lang"], "String"))
}

fn class_info(name: DotId, constructors: Vec<Constructor>, methods: Vec<Method>) -> ClassInfo {
    ClassInfo {
        span: span(),
        flags: flags(false),
        name,
        kind: ClassKind::Class,
        generics: vec![],
        extends: vec![],
        implements: vec![],
        constructors,
        fields: vec![],
        methods,
    }
}

fn javap(name: DotId, constructors: Vec<Constructor>, methods: Vec<Method>) -> JavapClassInfo {
    JavapClassInfo::from(class_info(name, constructors, methods))
}

fn reflector() -> Reflector {
    Reflector::new(&Configuration { jdk_bin: None, classpath: None })
}

fn package(path: &[&str], classes: Vec<ClassDecl>) -> JavaPackage {
    JavaPackage {
        package_name: PackageName {
            ids: path.iter().map(|s| Ident::new(s.to_string(), span())).collect(),
        },
        classes,
    }
}

fn specified(c: ClassInfo) -> ClassDecl {
    ClassDecl { kind: ClassDeclKind::Specified(c) }
}

fn reflected(name: DotId, kind: ClassKind) -> ClassDecl {
    ClassDecl { kind: ClassDeclKind::Reflected(ReflectedClass { span: span(), name, kind }) }
}

fn ok<T>(r: Result<T, ReflectError>) -> T {
    match r {
        Ok(t) => t,
        Err(_) => panic!("unexpected error"),
    }
}

fn err<T>(r: Result<T, ReflectError>) -> ErrorKind {
    match r {
        Ok(_) => panic!("unexpected success"),
        Err(e) => e.kind,
    }
}

fn selector_class(name: DotId) -> MethodSelector {
    MethodSelector::ClassName(ClassName { name, span: span() })
}

fn selector_method(name: DotId, method: &str) -> MethodSelector {
    MethodSelector::MethodName(ClassName { name, span: span() }, Ident::new(method.to_string(), span()))
}

fn root_names(root: &RootMap) -> Vec<String> {
    root.classes.iter().map(|(d, _)| d.to_dotted()).collect()
}

#[test]
fn dotted_name_joins_segments() {
    assert_eq!(dot_id(&["a", "b"], "C").to_dotted(), "a.b.C");
    assert_eq!(dot_id(&[], "C").to_dotted(), "C");
}

#[test]
fn reflect_before_the_tool_ran_is_an_error() {
    let r = reflector();
    let kind = err(r.reflect(&dot_id(&["a"], "B"), span()));
    assert!(matches!(kind, ErrorKind::NotReflected { class } if class.to_dotted() == "a.B"));
}

#[test]
fn reflection_is_memoized() {
    let mut r = reflector();
    let name = dot_id(&["a"], "B");
    let first = ok(r.store(&name, Ok(javap(name.copy(), vec![constructor(vec![])], vec![])), span()));
    assert_eq!(first.constructors().len(), 1);
    let second = ok(r.store(
        &name,
        Ok(javap(name.copy(), vec![], vec![method("m", false, vec![])])),
        span(),
    ));
    assert_eq!(second.constructors().len(), 1);
    assert_eq!(second.methods().len(), 0);
    let a = ok(r.reflect(&name, span()));
    let b = ok(r.reflect(&name, span()));
    assert_eq!(a.constructors().len(), b.constructors().len());
    assert_eq!(a.methods().len(), b.methods().len());
    assert_eq!(a.name().to_dotted(), b.name().to_dotted());
}

#[test]
fn parse_failure_is_reported_and_not_cached() {
    let mut r = reflector();
    let name = dot_id(&["a"], "B");
    let kind = err(r.store(&name, Err("bad text".to_string()), span()));
    assert!(matches!(kind, ErrorKind::ClassBodyParseFailure { message } if message == "bad text"));
    assert!(r.reflect(&name, span()).is_err());
}

#[test]
fn command_without_classpath() {
    let r = reflector();
    let c = r.command(&dot_id(&["java", "lang"], "Object"));
    assert_eq!(c.program, "javap");
    assert_eq!(c.args, strings(&["-p", "java.lang.Object"]));
}

#[test]
fn command_with_classpath_and_jdk() {
    let r = Reflector::new(&Configuration {
        jdk_bin: Some("/jdk/bin".to_string()),
        classpath: Some("target/classes".to_string()),
    });
    let c = r.command(&dot_id(&["me"], "Logger"));
    assert_eq!(c.program, "/jdk/bin/javap");
    assert_eq!(c.args, strings(&["-cp", "target/classes", "-p", "me.Logger"]));
}

fn command() -> ToolCommand {
    ToolCommand { program: "javap".to_string(), args: strings(&["-p", "a.B"]) }
}

#[test]
fn tool_spawn_failure() {
    let kind = err(tool_output(&command(), ToolRun::NotStarted { message: "no such file".to_string() }, span()));
    assert!(matches!(kind, ErrorKind::ToolSpawnFailure { command, message }
        if message == "no such file" && command.program == "javap"));
}

#[test]
fn tool_exit_failure_keeps_stderr() {
    let run = ToolRun::Finished {
        success: false,
        status: "exit status: 1".to_string(),
        stdout: vec![],
        stderr: b"class not found".to_vec(),
    };
    let kind = err(tool_output(&command(), run, span()));
    assert!(matches!(kind, ErrorKind::ToolExitFailure { status, stderr: Some(e), .. }
        if status == "exit status: 1" && e == "class not found"));
}

#[test]
fn tool_exit_failure_with_binary_stderr() {
    let run = ToolRun::Finished {
        success: false,
        status: "exit status: 2".to_string(),
        stdout: vec![],
        stderr: vec![0xff, 0xfe],
    };
    let kind = err(tool_output(&command(), run, span()));
    assert!(matches!(kind, ErrorKind::ToolExitFailure { stderr: None, .. }));
}

#[test]
fn tool_encoding_failure() {
    let run = ToolRun::Finished {
        success: true,
        status: "exit status: 0".to_string(),
        stdout: vec![0x61, 0xc3],
        stderr: vec![],
    };
    let kind = err(tool_output(&command(), run, span()));
    assert!(matches!(kind, ErrorKind::ToolEncodingFailure { command } if command.args.len() == 2));
}

#[test]
fn tool_output_text() {
    let run = ToolRun::Finished {
        success: true,
        status: "exit status: 0".to_string(),
        stdout: "public class a.B {}".as_bytes().to_vec(),
        stderr: vec![],
    };
    assert_eq!(ok(tool_output(&command(), run, span())), "public class a.B {}");
}

#[test]
fn bare_name_is_put_in_the_package() {
    let decl = DuchessDeclaration {
        packages: vec![package(&["a", "b"], vec![specified(class_info(dot_id(&[], "C"), vec![], vec![]))])],
    };
    let root = ok(decl.to_root_map(&reflector()));
    assert_eq!(root_names(&root), vec!["a.b.C".to_string()]);
    assert_eq!(root.classes[0].1.name.to_dotted(), "a.b.C");
}

#[test]
fn qualified_name_in_its_package_is_kept() {
    let decl = DuchessDeclaration {
        packages: vec![package(&["a", "b"], vec![specified(class_info(dot_id(&["a", "b"], "C"), vec![], vec![]))])],
    };
    let root = ok(decl.to_root_map(&reflector()));
    assert_eq!(root_names(&root), vec!["a.b.C".to_string()]);
}

#[test]
fn qualified_name_in_another_package_is_refused() {
    let decl = DuchessDeclaration {
        packages: vec![package(&["a", "b"], vec![specified(class_info(dot_id(&["x", "y"], "C"), vec![], vec![]))])],
    };
    let kind = err(decl.to_root_map(&reflector()));
    assert!(matches!(kind, ErrorKind::NameMismatch { expected_package } if expected_package == strings(&["a", "b"])));
}

#[test]
fn package_declared_twice_is_merged() {
    let decl = DuchessDeclaration {
        packages: vec![
            package(&["a", "b"], vec![specified(class_info(dot_id(&[], "C"), vec![], vec![]))]),
            package(&["a", "b"], vec![specified(class_info(dot_id(&[], "D"), vec![], vec![]))]),
        ],
    };
    let root = ok(decl.to_root_map(&reflector()));
    assert_eq!(root.subpackages.len(), 2);
    assert_eq!(root.subpackages[0].name, "a");
    assert_eq!(root.subpackages[0].parent, None);
    assert_eq!(root.subpackages[1].name, "b");
    assert_eq!(root.subpackages[1].parent, Some(0));
    let names: Vec<String> = root.subpackages[1].classes.iter().map(|d| d.to_dotted()).collect();
    assert_eq!(names, vec!["a.b.C".to_string(), "a.b.D".to_string()]);
    assert!(root.subpackages[0].classes.is_empty());
}

#[test]
fn sibling_packages_share_their_parent() {
    let decl = DuchessDeclaration {
        packages: vec![
            package(&["a", "b"], vec![specified(class_info(dot_id(&[], "C"), vec![], vec![]))]),
            package(&["a", "c"], vec![specified(class_info(dot_id(&[], "D"), vec![], vec![]))]),
        ],
    };
    let root = ok(decl.to_root_map(&reflector()));
    assert_eq!(root.subpackages.len(), 3);
    assert_eq!(root.subpackages[2].name, "c");
    assert_eq!(root.subpackages[2].parent, Some(0));
    assert_eq!(root_names(&root), vec!["a.b.C".to_string(), "a.c.D".to_string()]);
}

#[test]
fn same_class_declared_twice_keeps_one_entry() {
    let decl = DuchessDeclaration {
        packages: vec![
            package(&["a"], vec![specified(class_info(dot_id(&[], "C"), vec![], vec![]))]),
            package(&["a"], vec![specified(class_info(dot_id(&["a"], "C"), vec![constructor(vec![])], vec![]))]),
        ],
    };
    let root = ok(decl.to_root_map(&reflector()));
    assert_eq!(root_names(&root), vec!["a.C".to_string()]);
    assert_eq!(root.classes[0].1.constructors.len(), 1);
}

#[test]
fn reflected_class_takes_the_declared_kind() {
    let mut r = reflector();
    let name = dot_id(&["a"], "Runner");
    ok(r.store(&name, Ok(javap(name.copy(), vec![], vec![method("run", false, vec![])])), span()));
    let decl = DuchessDeclaration {
        packages: vec![package(&["a"], vec![reflected(dot_id(&[], "Runner"), ClassKind::Interface)])],
    };
    let root = ok(decl.to_root_map(&r));
    assert_eq!(root_names(&root), vec!["a.Runner".to_string()]);
    assert_eq!(root.classes[0].1.kind, ClassKind::Interface);
    assert_eq!(root.classes[0].1.methods.len(), 1);
}

#[test]
fn reflected_class_not_yet_reflected_fails() {
    let decl = DuchessDeclaration {
        packages: vec![package(&["a"], vec![reflected(dot_id(&[], "Missing"), ClassKind::Class)])],
    };
    let kind = err(decl.to_root_map(&reflector()));
    assert!(matches!(kind, ErrorKind::NotReflected { class } if class.to_dotted() == "a.Missing"));
}

#[test]
fn first_invalid_declaration_is_reported() {
    let decl = DuchessDeclaration {
        packages: vec![package(
            &["a"],
            vec![
                specified(class_info(dot_id(&["z"], "C"), vec![], vec![])),
                reflected(dot_id(&[], "Missing"), ClassKind::Class),
            ],
        )],
    };
    let kind = err(decl.to_root_map(&reflector()));
    assert!(matches!(kind, ErrorKind::NameMismatch { .. }));
}

fn reflector_with(name: &DotId, constructors: Vec<Constructor>, methods: Vec<Method>) -> Reflector {
    let mut r = reflector();
    ok(r.store(name, Ok(javap(name.copy(), constructors, methods)), span()));
    r
}

#[test]
fn single_constructor_is_selected() {
    let name = dot_id(&["a"], "B");
    let r = reflector_with(&name, vec![constructor(vec![string_ty()])], vec![]);
    let m = ok(r.reflect_method(&selector_class(name)));
    assert!(matches!(m, ReflectedMethod::Constructor(_, 0)));
    assert_eq!(m.name(), "new");
    assert!(m.is_static());
    assert_eq!(m.argument_tys().len(), 1);
    assert!(m.generics().is_empty());
    assert_eq!(m.class().name.to_dotted(), "a.B");
}

#[test]
fn no_constructor() {
    let name = dot_id(&["a"], "B");
    let r = reflector_with(&name, vec![], vec![]);
    assert!(matches!(err(r.reflect_method(&selector_class(name))), ErrorKind::NoConstructor));
}

#[test]
fn ambiguous_constructor() {
    let name = dot_id(&["a"], "B");
    let r = reflector_with(
        &name,
        vec![constructor(vec![]), constructor(vec![Type::Scalar(ScalarType::Int)])],
        vec![],
    );
    assert!(matches!(
        err(r.reflect_method(&selector_class(name))),
        ErrorKind::AmbiguousConstructor { count: 2 }
    ));
}

#[test]
fn overloaded_method_is_ambiguous() {
    let name = dot_id(&["a"], "Greeter");
    let r = reflector_with(
        &name,
        vec![],
        vec![
            method("greet", false, vec![string_ty()]),
            method("greet", false, vec![Type::Scalar(ScalarType::Int)]),
        ],
    );
    let kind = err(r.reflect_method(&selector_method(name.copy(), "greet")));
    assert!(matches!(kind, ErrorKind::AmbiguousMethod { name, count: 2 } if name == "greet"));
    let kind = err(r.reflect_method(&selector_method(name, "missing")));
    assert!(matches!(kind, ErrorKind::NoMethod { name } if name == "missing"));
}

#[test]
fn single_method_is_selected() {
    let name = dot_id(&["a"], "Task");
    let r = reflector_with(
        &name,
        vec![],
        vec![method("stop", false, vec![]), method("run", true, vec![string_ty()]), method("Run", false, vec![])],
    );
    let m = ok(r.reflect_method(&selector_method(name, "run")));
    assert!(matches!(m, ReflectedMethod::Method(_, 1)));
    assert_eq!(m.name(), "run");
    assert!(m.is_static());
    assert_eq!(m.argument_tys().len(), 1);
}

#[test]
fn selector_on_unreflected_class_fails() {
    let r = reflector();
    let kind = err(r.reflect_method(&selector_class(dot_id(&["a"], "B"))));
    assert!(matches!(kind, ErrorKind::NotReflected { .. }));
}

#[test]
fn explicit_class_selector_is_unsupported() {
    let r = reflector();
    let sel = MethodSelector::ClassInfo(class_info(dot_id(&["a"], "B"), vec![], vec![]));
    assert!(matches!(err(r.reflect_method(&sel)), ErrorKind::Unsupported));
}

#[test]
fn hello_end_to_end() {
    let decl = DuchessDeclaration {
        packages: vec![package(
            &["greet"],
            vec![specified(class_info(
                dot_id(&["greet"], "Hello"),
                vec![constructor(vec![])],
                vec![method("sayHi", false, vec![])],
            ))],
        )],
    };
    let root = ok(decl.to_root_map(&reflector()));
    assert_eq!(root_names(&root), vec!["greet.Hello".to_string()]);
    let hello = &root.classes[0].1;
    let mut r = reflector();
    let name = dot_id(&["greet"], "Hello");
    let info = JavapClassInfo::from(ClassInfo {
        span: span(),
        flags: hello.flags,
        name: hello.name.copy(),
        kind: hello.kind,
        generics: vec![],
        extends: vec![],
        implements: vec![],
        constructors: vec![constructor(vec![])],
        fields: vec![],
        methods: vec![method("sayHi", false, vec![])],
    });
    ok(r.store(&name, Ok(info), span()));
    let c = ok(r.reflect_method(&selector_class(name.copy())));
    assert!(matches!(c, ReflectedMethod::Constructor(_, 0)));
    let m = ok(r.reflect_method(&selector_method(name, "sayHi")));
    assert!(matches!(m, ReflectedMethod::Method(_, 0)));
    assert_eq!(m.name(), "sayHi");
    assert!(!m.is_static());
}

#[test]
fn to_class_info_stamps_the_span_and_keeps_the_rest() {
    let j = javap(dot_id(&["a"], "B"), vec![constructor(vec![])], vec![method("m", false, vec![])]);
    let c = j.to_class_info(span());
    assert_eq!(c.name.to_dotted(), "a.B");
    assert_eq!(c.constructors.len(), 1);
    assert_eq!(c.methods[0].name, "m");
    assert_eq!(j.kind(), ClassKind::Class);
}

#[test]
fn constructor_binding_is_new_and_static_for_any_index() {
    let class = class_info(dot_id(&["a"], "B"), vec![], vec![]);
    let m = ReflectedMethod::Constructor(std::sync::Arc::new(class), 3);
    assert_eq!(m.name(), "new");
    assert!(m.is_static());
}

#[test]
fn description_of_another_class_is_refused() {
    let mut r = reflector();
    let name = dot_id(&["p"], "C");
    let kind = err(r.store(&name, Ok(javap(dot_id(&["q"], "D"), vec![], vec![])), span()));
    assert!(matches!(kind, ErrorKind::ReflectedNameMismatch { expected, found }
        if expected.to_dotted() == "p.C" && found.to_dotted() == "q.D"));
    assert!(r.reflect(&name, span()).is_err());
}

#[test]
fn reflected_entry_carries_its_key() {
    let mut r = reflector();
    let name = dot_id(&["p"], "C");
    ok(r.store(&name, Ok(javap(name.copy(), vec![], vec![])), span()));
    let decl = DuchessDeclaration {
        packages: vec![package(&["p"], vec![reflected(dot_id(&[], "C"), ClassKind::Class)])],
    };
    let root = ok(decl.to_root_map(&r));
    assert_eq!(root.classes[0].0.to_dotted(), "p.C");
    assert_eq!(root.classes[0].1.name.to_dotted(), "p.C");
}

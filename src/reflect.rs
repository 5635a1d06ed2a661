use vstd::prelude::*;
use vstd::string::StringExecFns;
use vstd::utf8::{decode_utf8, valid_utf8};
use crate::class_info::{ClassBody, ClassInfo, ClassInfoView, Duplicate, JavapClassInfo};
use crate::names::{dotted, DotId, Id, QualifiedName};

verus! {

/// What went wrong, without the place.
pub enum ErrorKind {
    /// A class named a package other than the one it was declared in.
    NameMismatch { expected_package: Vec<Id> },
    /// The reflection tool has not yet been run on this class.
    NotReflected { class: DotId },
    /// The reflection tool could not be started.
    ToolSpawnFailure { command: ToolCommand, message: String },
    /// The reflection tool ran and reported failure; `stderr` is `None` when
    /// its error output was not text.
    ToolExitFailure { command: ToolCommand, status: String, stderr: Option<String> },
    /// The reflection tool's output was not text.
    ToolEncodingFailure { command: ToolCommand },
    /// The tool's output could not be read as a class description.
    ClassBodyParseFailure { message: String },
    /// The tool described a class other than the one it was asked about.
    ReflectedNameMismatch { expected: DotId, found: DotId },
    NoConstructor,
    AmbiguousConstructor { count: usize },
    NoMethod { name: Id },
    AmbiguousMethod { name: Id, count: usize },
    /// A selector form that this library does not handle.
    Unsupported,
}

/// An error, located at the declaration that caused it.
pub struct ReflectError {
    pub span: proc_macro2::Span,
    pub kind: ErrorKind,
}

/// Where the JDK's tools are found, and the class path handed to them.
pub struct Configuration {
    pub jdk_bin: Option<String>,
    pub classpath: Option<String>,
}

pub struct ConfigurationView {
    pub jdk_bin: Option<Seq<char>>,
    pub classpath: Option<Seq<char>>,
}

pub open spec fn text_of(s: Option<String>) -> Option<Seq<char>> {
    match s {
        Some(t) => Some(t@),
        None => None,
    }
}

fn copy_text(s: &Option<String>) -> (r: Option<String>)
    ensures
        text_of(r) == text_of(*s),
{
    match s {
        Some(t) => Some(t.clone()),
        None => None,
    }
}

impl View for Configuration {
    type V = ConfigurationView;

    open spec fn view(&self) -> ConfigurationView {
        ConfigurationView { jdk_bin: text_of(self.jdk_bin), classpath: text_of(self.classpath) }
    }
}

/// The path of a JDK tool: inside the configured directory, or looked up by
/// its bare name.
pub open spec fn bin_path_of(c: ConfigurationView, tool: Seq<char>) -> Seq<char> {
    match c.jdk_bin {
        Some(dir) => dir + seq!['/'] + tool,
        None => tool,
    }
}

impl Configuration {
    pub fn bin_path(&self, tool: &str) -> (r: String)
        ensures
            r@ == bin_path_of(self@, tool@),
    {
        match &self.jdk_bin {
            Some(dir) => {
                let mut r = dir.clone();
                r.append("/");
                r.append(tool);
                proof {
                    reveal_strlit("/");
                }
                r
            },
            None => String::from_str(tool),
        }
    }

    pub fn copy(&self) -> (r: Configuration)
        ensures
            r@ == self@,
    {
        Configuration { jdk_bin: copy_text(&self.jdk_bin), classpath: copy_text(&self.classpath) }
    }
}

/// A program and its arguments.
pub struct ToolCommand {
    pub program: String,
    pub args: Vec<String>,
}

pub struct ToolCommandView {
    pub program: Seq<char>,
    pub args: Seq<Seq<char>>,
}

impl View for ToolCommand {
    type V = ToolCommandView;

    open spec fn view(&self) -> ToolCommandView {
        ToolCommandView { program: self.program@, args: crate::names::texts(self.args@) }
    }
}

impl ToolCommand {
    pub fn copy(&self) -> (r: ToolCommand)
        ensures
            r@ == self@,
    {
        ToolCommand { program: self.program.clone(), args: crate::names::copy_ids(&self.args) }
    }
}

/// `javap [-cp <classpath>] -p <qualified name>`.
pub open spec fn javap_command(c: ConfigurationView, class_name: QualifiedName) -> ToolCommandView {
    let tail = seq![seq!['-', 'p'], dotted(class_name)];
    ToolCommandView {
        program: bin_path_of(c, seq!['j', 'a', 'v', 'a', 'p']),
        args: match c.classpath {
            Some(cp) => seq![seq!['-', 'c', 'p'], cp] + tail,
            None => tail,
        },
    }
}

/// How a run of the reflection tool ended.
pub enum ToolRun {
    /// The process could not be started.
    NotStarted { message: String },
    /// The process ran to its end.
    Finished { success: bool, status: String, stdout: Vec<u8>, stderr: Vec<u8> },
}

/// The text that a sequence of bytes encodes in UTF-8, if it is valid UTF-8.
pub open spec fn utf8_decoded(b: Seq<u8>) -> Option<Seq<char>> {
    if valid_utf8(b) {
        Some(decode_utf8(b))
    } else {
        None
    }
}

/// Relies on `String::from_utf8`: it succeeds exactly on valid UTF-8, and
/// then holds the characters that the bytes encode.
#[verifier::external_body]
fn utf8_text(bytes: Vec<u8>) -> (r: Option<String>)
    ensures
        r is Some == valid_utf8(bytes@),
        r matches Some(s) ==> s@ == decode_utf8(bytes@),
{
    String::from_utf8(bytes).ok()
}

/// Turns a run of the reflection tool into its output text, or into the error
/// that describes how it failed.
pub fn tool_output(command: &ToolCommand, run: ToolRun, span: proc_macro2::Span) -> (r: Result<
    String,
    ReflectError,
>)
    ensures
        match run {
            ToolRun::NotStarted { message } => r matches Err(e) && e.span == span && (match e.kind {
                ErrorKind::ToolSpawnFailure { command: c, message: m } => c@ == command@ && m@
                    == message@,
                _ => false,
            }),
            ToolRun::Finished { success, status, stdout, stderr } => if !success {
                r matches Err(e) && e.span == span && (match e.kind {
                    ErrorKind::ToolExitFailure { command: c, status: s, stderr: t } => c@
                        == command@ && s@ == status@ && text_of(t) == utf8_decoded(stderr@),
                    _ => false,
                })
            } else {
                match utf8_decoded(stdout@) {
                    Some(text) => r matches Ok(o) && o@ == text,
                    None => r matches Err(e) && e.span == span && (match e.kind {
                        ErrorKind::ToolEncodingFailure { command: c } => c@ == command@,
                        _ => false,
                    }),
                }
            },
        },
{
    match run {
        ToolRun::NotStarted { message } => Err(
            ReflectError {
                span,
                kind: ErrorKind::ToolSpawnFailure { command: command.copy(), message },
            },
        ),
        ToolRun::Finished { success, status, stdout, stderr } => {
            if !success {
                let stderr = utf8_text(stderr);
                Err(
                    ReflectError {
                        span,
                        kind: ErrorKind::ToolExitFailure { command: command.copy(), status, stderr },
                    },
                )
            } else {
                match utf8_text(stdout) {
                    Some(text) => Ok(text),
                    None => Err(
                        ReflectError {
                            span,
                            kind: ErrorKind::ToolEncodingFailure { command: command.copy() },
                        },
                    ),
                }
            }
        },
    }
}

/// `e` says, at `span`, that the tool has not been run on `name`.
pub open spec fn not_reflected(e: ReflectError, name: QualifiedName, span: proc_macro2::Span) -> bool {
    e.span == span && (match e.kind {
        ErrorKind::NotReflected { class } => class@ == name,
        _ => false,
    })
}

/// The description cached under a name, if there is one.
pub open spec fn cached(cache: Seq<(QualifiedName, ClassBody)>, name: QualifiedName) -> Option<
    ClassBody,
>
    decreases cache.len(),
{
    if cache.len() == 0 {
        None
    } else if cache.last().0 == name {
        Some(cache.last().1)
    } else {
        cached(cache.drop_last(), name)
    }
}

/// The cache after a description of `name` was parsed: the first description
/// stored under a name stays.
pub open spec fn remember(
    cache: Seq<(QualifiedName, ClassBody)>,
    name: QualifiedName,
    body: ClassBody,
) -> Seq<(QualifiedName, ClassBody)> {
    if cached(cache, name) is Some {
        cache
    } else {
        cache.push((name, body))
    }
}

/// No name is cached twice.
pub open spec fn unique_names(cache: Seq<(QualifiedName, ClassBody)>) -> bool {
    forall|i: int, j: int| 0 <= i < j < cache.len() ==> cache[i].0 != cache[j].0
}

/// Every description is cached under its own name.
pub open spec fn names_match(cache: Seq<(QualifiedName, ClassBody)>) -> bool {
    forall|i: int| 0 <= i < cache.len() ==> #[trigger] cache[i].1.name == cache[i].0
}

/// Reflection cache. Given fully qualified Java class names, it holds what the
/// reflection tool reported of each.
pub struct Reflector {
    configuration: Configuration,
    classes: Vec<(DotId, JavapClassInfo)>,
}

/// What a reflector knows: its configuration and its cache, in the order
/// in which the descriptions were stored.
pub struct ReflectorView {
    pub configuration: ConfigurationView,
    pub cache: Seq<(QualifiedName, ClassBody)>,
}

impl View for Reflector {
    type V = ReflectorView;

    closed spec fn view(&self) -> ReflectorView {
        ReflectorView {
            configuration: self.configuration@,
            cache: self.classes@.map_values(|e: (DotId, JavapClassInfo)| (e.0@, e.1@)),
        }
    }
}

impl Reflector {
    /// No name is cached twice, and each description sits under its own name.
    #[verifier::type_invariant]
    pub open spec fn consistent(&self) -> bool {
        unique_names(self@.cache) && names_match(self@.cache)
    }

    pub fn new(configuration: &Configuration) -> (r: Reflector)
        ensures
            r@.configuration == configuration@,
            r@.cache == Seq::<(QualifiedName, ClassBody)>::empty(),
    {
        let r = Reflector { configuration: configuration.copy(), classes: Vec::new() };
        assert(r@.cache =~= Seq::<(QualifiedName, ClassBody)>::empty());
        r
    }

    /// The cached description of `class_name`, as an index into the cache.
    fn find(&self, class_name: &DotId) -> (r: Option<usize>)
        ensures
            match r {
                Some(i) => i < self.classes@.len() && cached(self@.cache, class_name@) == Some(
                    self.classes@[i as int].1@,
                ),
                None => cached(self@.cache, class_name@) is None,
            },
    {
        let mut i: usize = self.classes.len();
        assert(self@.cache.take(i as int) =~= self@.cache);
        while i > 0
            invariant
                i <= self.classes@.len(),
                cached(self@.cache, class_name@) == cached(self@.cache.take(i as int), class_name@),
            decreases i,
        {
            assert(self@.cache.take(i as int).drop_last() =~= self@.cache.take(i - 1));
            if self.classes[i - 1].0.same_as(class_name) {
                return Some(i - 1);
            }
            i = i - 1;
        }
        None
    }

    /// The command that reflects on `class_name`.
    pub fn command(&self, class_name: &DotId) -> (r: ToolCommand)
        ensures
            r@ == javap_command(self@.configuration, class_name@),
    {
        proof {
            reveal_strlit("javap");
            reveal_strlit("-cp");
            reveal_strlit("-p");
        }
        let program = self.configuration.bin_path("javap");
        assert("javap"@ =~= seq!['j', 'a', 'v', 'a', 'p']);
        assert(program@ == bin_path_of(self@.configuration, seq!['j', 'a', 'v', 'a', 'p']));
        let mut args: Vec<String> = Vec::new();
        match &self.configuration.classpath {
            Some(cp) => {
                let c = String::from_str("-cp");
                assert(c@ == seq!['-', 'c', 'p']);
                args.push(c);
                args.push(cp.clone());
                assert(crate::names::texts(args@) =~= seq![seq!['-', 'c', 'p'], cp@]);
            },
            None => {
                assert(crate::names::texts(args@) =~= Seq::<Seq<char>>::empty());
            },
        }
        let ghost head = crate::names::texts(args@);
        let p = String::from_str("-p");
        assert(p@ == seq!['-', 'p']);
        let d = class_name.to_dotted();
        args.push(p);
        args.push(d);
        assert(args@.len() == head.len() + 2);
        assert(args@[head.len() as int]@ == seq!['-', 'p']);
        let ghost tail = seq![seq!['-', 'p'], dotted(class_name@)];
        assert(crate::names::texts(args@) =~= head + tail);
        assert(head =~= match self@.configuration.classpath {
            Some(cp) => seq![seq!['-', 'c', 'p'], cp],
            None => Seq::empty(),
        });
        let r = ToolCommand { program, args };
        assert(r@.args =~= javap_command(self@.configuration, class_name@).args);
        r
    }

    /// Returns the cached info about `class_name`, or an error located at `span`
    /// if the tool has not been run on it.
    pub fn reflect(&self, class_name: &DotId, span: proc_macro2::Span) -> (r: Result<
        JavapClassInfo,
        ReflectError,
    >)
        ensures
            match cached(self@.cache, class_name@) {
                Some(body) => r matches Ok(c) && c@ == body,
                None => r matches Err(e) && not_reflected(e, class_name@, span),
            },
    {
        match self.find(class_name) {
            Some(i) => Ok(self.classes[i].1.duplicate()),
            None => Err(
                ReflectError { span, kind: ErrorKind::NotReflected { class: class_name.copy() } },
            ),
        }
    }

    /// Records what the parser made of the tool's output for `class_name`, and
    /// returns the description that is cached for it from now on: the first one
    /// recorded wins.
    pub fn store(
        &mut self,
        class_name: &DotId,
        parsed: Result<JavapClassInfo, String>,
        span: proc_macro2::Span,
    ) -> (r: Result<JavapClassInfo, ReflectError>)
        ensures
            unique_names(final(self)@.cache),
            names_match(final(self)@.cache),
            final(self)@.configuration == old(self)@.configuration,
            match parsed {
                Ok(ci) => if ci@.name == class_name@ {
                    final(self)@.cache == remember(old(self)@.cache, class_name@, ci@) && (r matches Ok(
                        c,
                    ) && Some(c@) == cached(final(self)@.cache, class_name@))
                } else {
                    final(self)@.cache == old(self)@.cache && (r matches Err(e) && e.span == span
                        && (match e.kind {
                        ErrorKind::ReflectedNameMismatch { expected, found } => expected@
                            == class_name@ && found@ == ci@.name,
                        _ => false,
                    }))
                },
                Err(message) => final(self)@.cache == old(self)@.cache && (r matches Err(e) && e.span == span
                    && (match e.kind {
                    ErrorKind::ClassBodyParseFailure { message: m } => m@ == message@,
                    _ => false,
                })),
            },
    {
        proof {
            use_type_invariant(&*self);
        }
        match parsed {
            Err(message) => Err(
                ReflectError { span, kind: ErrorKind::ClassBodyParseFailure { message } },
            ),
            Ok(ci) => {
                if !ci.name.same_as(class_name) {
                    return Err(
                        ReflectError {
                            span,
                            kind: ErrorKind::ReflectedNameMismatch {
                                expected: class_name.copy(),
                                found: ci.name,
                            },
                        },
                    );
                }
                match self.find(class_name) {
                    Some(i) => Ok(self.classes[i].1.duplicate()),
                    None => {
                        let copy = ci.duplicate();
                        let ghost before = self@.cache;
                        let mut classes: Vec<(DotId, JavapClassInfo)> = Vec::new();
                        std::mem::swap(&mut classes, &mut self.classes);
                        assert(classes@.map_values(|e: (DotId, JavapClassInfo)| (e.0@, e.1@)) == before);
                        classes.push((class_name.copy(), ci));
                        let ghost after = classes@.map_values(|e: (DotId, JavapClassInfo)| (e.0@, e.1@));
                        assert(after =~= before.push((class_name@, copy@)));
                        proof {
                            lemma_cached_push(before, class_name@, copy@);
                            assert(names_match(after)) by {
                                assert forall|i: int| 0 <= i < after.len() implies #[trigger] after[i].1.name
                                    == after[i].0 by {
                                    if i < before.len() {
                                        assert(after[i] == before[i]);
                                    }
                                }
                            }
                        }
                        self.classes = classes;
                        Ok(copy)
                    },
                }
            },
        }
    }
}

/// A name just pushed onto a cache is found there.
proof fn lemma_cached_push(
    cache: Seq<(QualifiedName, ClassBody)>,
    name: QualifiedName,
    body: ClassBody,
)
    requires
        cached(cache, name) is None,
        unique_names(cache),
    ensures
        cached(cache.push((name, body)), name) == Some(body),
        unique_names(cache.push((name, body))),
{
    assert(cache.push((name, body)).drop_last() =~= cache);
    lemma_cached_none(cache, name);
}

proof fn lemma_cached_none(cache: Seq<(QualifiedName, ClassBody)>, name: QualifiedName)
    requires
        cached(cache, name) is None,
    ensures
        forall|i: int| 0 <= i < cache.len() ==> cache[i].0 != name,
    decreases cache.len(),
{
    if cache.len() > 0 {
        lemma_cached_none(cache.drop_last(), name);
        assert forall|i: int| 0 <= i < cache.len() implies cache[i].0 != name by {
            if i < cache.len() - 1 {
                assert(cache[i] == cache.drop_last()[i]);
            }
        }
    }
}

/// Reflection is memoized: once a description has been recorded for a name,
/// recording another changes nothing, and every lookup of the name sees the
/// first one, so the tool is needed at most once per name.
pub proof fn lemma_reflection_memoized(
    cache: Seq<(QualifiedName, ClassBody)>,
    name: QualifiedName,
    first: ClassBody,
    later: ClassBody,
)
    ensures
        remember(remember(cache, name, first), name, later) == remember(cache, name, first),
        cached(remember(cache, name, first), name) == Some(
            match cached(cache, name) {
                Some(b) => b,
                None => first,
            },
        ),
{
    if cached(cache, name) is None {
        assert(cache.push((name, first)).last() == (name, first));
    }
}

} // verus!

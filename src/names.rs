use vstd::prelude::*;
use vstd::string::StringExecFns;

verus! {

/// `proc_macro2::Span`, a source location. The library never looks inside it:
/// it is only carried along so that errors point at the declaration that
/// caused them.
#[verifier::external_type_specification]
#[verifier::external_body]
pub struct ExSpan(proc_macro2::Span);

/// The text of a simple name.
pub type Id = String;

/// A simple name as the user wrote it, with the place where it was written.
/// Two identifiers are the same name when their texts are equal.
pub struct Ident {
    pub text: Id,
    pub span: proc_macro2::Span,
}

/// A qualified class name: package segments followed by the class's simple name.
pub struct DotId {
    pub package: Vec<Id>,
    pub class: Id,
}

/// The mathematical value of a qualified name.
pub struct QualifiedName {
    pub package: Seq<Seq<char>>,
    pub class: Seq<char>,
}

/// The texts of a sequence of strings.
pub open spec fn texts(v: Seq<String>) -> Seq<Seq<char>> {
    v.map_values(|s: String| s@)
}

impl View for DotId {
    type V = QualifiedName;

    open spec fn view(&self) -> QualifiedName {
        QualifiedName { package: texts(self.package@), class: self.class@ }
    }
}

/// Copies a vector of strings, keeping every text.
pub fn copy_ids(v: &Vec<Id>) -> (r: Vec<Id>)
    ensures
        texts(r@) == texts(v@),
{
    let mut r: Vec<Id> = Vec::new();
    let mut i: usize = 0;
    while i < v.len()
        invariant
            i <= v.len(),
            r@.len() == i,
            forall|j: int| 0 <= j < i ==> #[trigger] r@[j]@ == v@[j]@,
        decreases v.len() - i,
    {
        r.push(v[i].clone());
        i = i + 1;
    }
    assert(texts(r@) =~= texts(v@));
    r
}

/// Whether two vectors of strings hold the same texts, in the same order.
pub fn same_ids(a: &Vec<Id>, b: &Vec<Id>) -> (r: bool)
    ensures
        r == (texts(a@) == texts(b@)),
{
    if a.len() != b.len() {
        assert(texts(a@).len() != texts(b@).len());
        return false;
    }
    let mut i: usize = 0;
    while i < a.len()
        invariant
            i <= a.len(),
            a.len() == b.len(),
            texts(a@).take(i as int) =~= texts(b@).take(i as int),
        decreases a.len() - i,
    {
        if a[i] != b[i] {
            assert(texts(a@)[i as int] != texts(b@)[i as int]);
            return false;
        }
        assert(texts(a@).take(i + 1) =~= texts(b@).take(i + 1)) by {
            assert(texts(a@).take(i + 1) =~= texts(a@).take(i as int).push(texts(a@)[i as int]));
            assert(texts(b@).take(i + 1) =~= texts(b@).take(i as int).push(texts(b@)[i as int]));
        }
        i = i + 1;
    }
    assert(texts(a@) =~= texts(a@).take(a.len() as int));
    assert(texts(b@) =~= texts(b@).take(b.len() as int));
    true
}

impl Ident {
    pub fn new(text: Id, span: proc_macro2::Span) -> (r: Ident)
        ensures
            r.text@ == text@,
            r.span == span,
    {
        Ident { text, span }
    }
}

impl DotId {
    /// The qualified name with the given package segments and simple name.
    pub fn new(package: &Vec<Id>, class: &Id) -> (r: DotId)
        ensures
            r@ == (QualifiedName { package: texts(package@), class: class@ }),
    {
        DotId { package: copy_ids(package), class: class.clone() }
    }

    /// A copy of this name.
    pub fn copy(&self) -> (r: DotId)
        ensures
            r@ == self@,
    {
        DotId::new(&self.package, &self.class)
    }

    /// The package segments and the simple name, apart.
    pub fn split(&self) -> (r: (&Vec<Id>, &Id))
        ensures
            texts(r.0@) == self@.package,
            r.1@ == self@.class,
    {
        (&self.package, &self.class)
    }

    /// Whether two names are the same qualified name.
    pub fn same_as(&self, other: &DotId) -> (r: bool)
        ensures
            r == (self@ == other@),
    {
        let same_package = same_ids(&self.package, &other.package);
        let same_class = self.class == other.class;
        if same_package && same_class {
            true
        } else {
            proof {
                if self@ == other@ {
                    assert(self@.package == other@.package);
                }
            }
            false
        }
    }
}

/// The segments of a package, each followed by a dot.
pub open spec fn dotted_prefix(package: Seq<Seq<char>>) -> Seq<char>
    decreases package.len(),
{
    if package.len() == 0 {
        Seq::empty()
    } else {
        dotted_prefix(package.drop_last()) + package.last() + seq!['.']
    }
}

/// A qualified name as it is written in Java source: `a.b.C`.
pub open spec fn dotted(q: QualifiedName) -> Seq<char> {
    dotted_prefix(q.package) + q.class
}

impl DotId {
    /// The name as Java writes it, its segments joined by dots.
    pub fn to_dotted(&self) -> (r: String)
        ensures
            r@ == dotted(self@),
    {
        let mut r = String::new();
        let mut i: usize = 0;
        while i < self.package.len()
            invariant
                i <= self.package.len(),
                r@ == dotted_prefix(texts(self.package@).take(i as int)),
            decreases self.package.len() - i,
        {
            r.append(self.package[i].as_str());
            r.append(".");
            proof {
                reveal_strlit(".");
                let t = texts(self.package@);
                assert(t.take(i + 1).drop_last() =~= t.take(i as int));
            }
            i = i + 1;
        }
        r.append(self.class.as_str());
        assert(texts(self.package@).take(self.package.len() as int) =~= texts(self.package@));
        r
    }
}

} // verus!

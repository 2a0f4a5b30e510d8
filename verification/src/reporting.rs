//! Issues, their fixes, and the context into which rules report them.
use vstd::prelude::*;

use crate::ast::Span;
use crate::text::byte_strings;

verus! {

/// Severity of a reported issue.
#[derive(Clone, Copy, Debug, PartialEq, Eq, Structural, Hash)]
pub enum Level {
    Note,
    Help,
    Warning,
    Error,
}

/// How safe it is to apply a fix without review.
#[derive(Clone, Copy, Debug, PartialEq, Eq, Structural)]
pub enum SafetyClassification {
    Safe,
    PotentiallyUnsafe,
    Unsafe,
}

/// The primary annotation of an issue: where it is, and what is said there.
#[derive(Debug)]
pub struct Annotation {
    pub span: Span,
    pub message: Vec<u8>,
}

/// Replace the bytes `start..end` of the source with `replacement`.
#[derive(Debug)]
pub struct Edit {
    pub start: u32,
    pub end: u32,
    pub replacement: Vec<u8>,
    pub safety: SafetyClassification,
}

/// A proposed fix: the edits that a rule put into its plan.
#[derive(Debug)]
pub struct FixPlan {
    pub edits: Vec<Edit>,
}

/// One finding of a rule.
#[derive(Debug)]
pub struct Issue {
    pub level: Level,
    pub code: Vec<u8>,
    pub message: Vec<u8>,
    pub annotation: Annotation,
    pub note: Option<Vec<u8>>,
    pub help: Vec<u8>,
    pub fix: Option<FixPlan>,
}

pub struct AnnotationView {
    pub span: Span,
    pub message: Seq<u8>,
}

pub struct EditView {
    pub start: u32,
    pub end: u32,
    pub replacement: Seq<u8>,
    pub safety: SafetyClassification,
}

pub struct IssueView {
    pub level: Level,
    pub code: Seq<u8>,
    pub message: Seq<u8>,
    pub annotation: AnnotationView,
    pub note: Option<Seq<u8>>,
    pub help: Seq<u8>,
    pub fix: Option<Seq<EditView>>,
}

impl View for Annotation {
    type V = AnnotationView;

    open spec fn view(&self) -> AnnotationView {
        AnnotationView { span: self.span, message: self.message@ }
    }
}

impl View for Edit {
    type V = EditView;

    open spec fn view(&self) -> EditView {
        EditView {
            start: self.start,
            end: self.end,
            replacement: self.replacement@,
            safety: self.safety,
        }
    }
}

impl View for FixPlan {
    type V = Seq<EditView>;

    open spec fn view(&self) -> Seq<EditView> {
        self.edits@.map_values(|e: Edit| e@)
    }
}

impl View for Issue {
    type V = IssueView;

    open spec fn view(&self) -> IssueView {
        IssueView {
            level: self.level,
            code: self.code@,
            message: self.message@,
            annotation: self.annotation@,
            note: match self.note {
                Some(n) => Some(n@),
                None => None,
            },
            help: self.help@,
            fix: match self.fix {
                Some(p) => Some(p@),
                None => None,
            },
        }
    }
}

/// The views of a sequence of issues.
pub open spec fn issue_views(issues: Seq<Issue>) -> Seq<IssueView> {
    issues.map_values(|i: Issue| i@)
}

/// How a function-like entry of the codebase was declared.
#[derive(Clone, Copy, Debug, PartialEq, Eq, Structural)]
pub enum FunctionLikeKind {
    Function,
    Method,
    Closure,
    ArrowFunction,
}

/// One function or method known to the codebase, with its parameter names
/// as declared (each with its `$`).
#[derive(Debug)]
pub struct FunctionLikeEntry {
    pub scope: Vec<u8>,
    pub name: Vec<u8>,
    pub kind: FunctionLikeKind,
    pub parameters: Vec<Vec<u8>>,
}

/// What the codebase knows of a function-like: its kind and parameter names.
pub struct FunctionLikeMetadata {
    pub kind: FunctionLikeKind,
    pub parameters: Seq<Seq<u8>>,
}

/// The functions and methods declared across the analysed files, keyed by
/// `(lower-case scope, lower-case name)`; the scope of a global function is
/// empty, that of a method is its class.
pub struct Codebase {
    entries: Vec<FunctionLikeEntry>,
}

/// The map that a list of entries describes: a later entry replaces an
/// earlier one with the same key.
pub open spec fn entries_map(entries: Seq<FunctionLikeEntry>) -> Map<(Seq<u8>, Seq<u8>), FunctionLikeMetadata>
    decreases entries.len(),
{
    if entries.len() == 0 {
        Map::empty()
    } else {
        let e = entries.last();
        entries_map(entries.drop_last()).insert(
            (e.scope@, e.name@),
            FunctionLikeMetadata { kind: e.kind, parameters: byte_strings(e.parameters@) },
        )
    }
}

proof fn lemma_entries_map_last_match(entries: Seq<FunctionLikeEntry>, key: (Seq<u8>, Seq<u8>), i: int)
    requires
        -1 <= i < entries.len(),
        forall|j: int| i < j < entries.len() ==> (#[trigger] entries[j].scope@, entries[j].name@) != key,
    ensures
        i >= 0 && (entries[i].scope@, entries[i].name@) == key ==> {
            &&& entries_map(entries).contains_key(key)
            &&& entries_map(entries)[key] == FunctionLikeMetadata {
                kind: entries[i].kind,
                parameters: byte_strings(entries[i].parameters@),
            }
        },
        i == -1 ==> !entries_map(entries).contains_key(key),
    decreases entries.len(),
{
    if entries.len() > 0 && i < entries.len() - 1 {
        let d = entries.drop_last();
        assert forall|j: int| i < j < d.len() implies (#[trigger] d[j].scope@, d[j].name@) != key by {
            assert(d[j] == entries[j]);
        }
        lemma_entries_map_last_match(d, key, i);
        if i >= 0 {
            assert(d[i] == entries[i]);
        }
    }
}

impl View for Codebase {
    type V = Map<(Seq<u8>, Seq<u8>), FunctionLikeMetadata>;

    closed spec fn view(&self) -> Self::V {
        entries_map(self.entries@)
    }
}

impl Codebase {
    /// An empty codebase.
    pub fn new() -> (r: Codebase)
        ensures
            r@ == Map::<(Seq<u8>, Seq<u8>), FunctionLikeMetadata>::empty(),
    {
        Codebase { entries: Vec::new() }
    }

    /// Records a function-like under its lower-cased scope and name,
    /// replacing what was recorded under that key before.
    pub fn insert(&mut self, scope: &Vec<u8>, name: &Vec<u8>, kind: FunctionLikeKind, parameters: Vec<Vec<u8>>)
        ensures
            final(self)@ == old(self)@.insert(
                (crate::text::ascii_lowercase(scope@), crate::text::ascii_lowercase(name@)),
                FunctionLikeMetadata { kind, parameters: byte_strings(parameters@) },
            ),
    {
        let entry = FunctionLikeEntry {
            scope: crate::text::to_ascii_lowercase(scope),
            name: crate::text::to_ascii_lowercase(name),
            kind,
            parameters,
        };
        let ghost old_entries = self.entries@;
        self.entries.push(entry);
        assert(self.entries@.drop_last() =~= old_entries);
    }

    /// The entry recorded under exactly this (already lower-cased) key.
    pub fn get(&self, scope: &Vec<u8>, name: &Vec<u8>) -> (r: Option<&FunctionLikeEntry>)
        ensures
            match r {
                Some(e) => {
                    &&& self@.contains_key((scope@, name@))
                    &&& self@[(scope@, name@)] == FunctionLikeMetadata {
                        kind: e.kind,
                        parameters: byte_strings(e.parameters@),
                    }
                },
                None => !self@.contains_key((scope@, name@)),
            },
    {
        let mut i: usize = self.entries.len();
        while i > 0
            invariant
                i <= self.entries@.len(),
                forall|j: int|
                    i <= j < self.entries@.len() ==> (#[trigger] self.entries@[j].scope@,
                    self.entries@[j].name@) != (scope@, name@),
            decreases i,
        {
            let e = &self.entries[i - 1];
            if crate::text::bytes_equal(&e.scope, scope) && crate::text::bytes_equal(&e.name, name) {
                proof {
                    lemma_entries_map_last_match(self.entries@, (scope@, name@), i - 1);
                }
                return Some(e);
            }
            i = i - 1;
        }
        proof {
            lemma_entries_map_last_match(self.entries@, (scope@, name@), -1);
        }
        None
    }
}

/// What a rule sees while it runs: the source text, the codebase if one was
/// built, and the issues reported so far.
pub struct LintContext {
    pub source: Vec<u8>,
    pub codebase: Option<Codebase>,
    pub issues: Vec<Issue>,
}

impl LintContext {
    /// A context with no issues reported yet.
    pub fn new(source: Vec<u8>, codebase: Option<Codebase>) -> (r: LintContext)
        ensures
            r.source@ == source@,
            r.codebase == codebase,
            r.issues@.len() == 0,
    {
        LintContext { source, codebase, issues: Vec::new() }
    }

    /// Reports an issue without a fix.
    pub fn report(&mut self, issue: Issue)
        ensures
            final(self).source == old(self).source,
            final(self).codebase == old(self).codebase,
            issue_views(final(self).issues@) == issue_views(old(self).issues@).push(
                IssueView { fix: None, ..issue@ },
            ),
    {
        let mut issue = issue;
        issue.fix = None;
        let ghost before = self.issues@;
        self.issues.push(issue);
        assert(issue_views(self.issues@) =~= issue_views(before).push(issue@));
    }

    /// Reports an issue together with the fix that a rule planned for it.
    pub fn propose(&mut self, issue: Issue, plan: FixPlan)
        ensures
            final(self).source == old(self).source,
            final(self).codebase == old(self).codebase,
            issue_views(final(self).issues@) == issue_views(old(self).issues@).push(
                IssueView { fix: Some(plan@), ..issue@ },
            ),
    {
        let mut issue = issue;
        issue.fix = Some(plan);
        let ghost before = self.issues@;
        self.issues.push(issue);
        assert(issue_views(self.issues@) =~= issue_views(before).push(issue@));
    }
}

} // verus!

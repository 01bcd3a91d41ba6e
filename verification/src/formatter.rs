//! The line that shows one task: a marker for its state and its name, behind
//! an indent or behind the lines of a drawn tree.

use vstd::prelude::*;
use vstd::string::StringExecFns;
use crate::entry::Entry;
use crate::text::{push_char, repeat, repeated};

verus! {

/// The glyph that stands for a task's state.
pub open spec fn glyph(completed: char, incomplete: char, complete: bool) -> char {
    if complete {
        completed
    } else {
        incomplete
    }
}

/// The marker and the name: `[`, the glyph, `]: ` and the name.
pub open spec fn marked(glyph: char, name: Seq<char>) -> Seq<char> {
    seq!['[', glyph, ']', ':', ' '] + name
}

/// The plain style: the indent once for each level, then the marker and the name.
pub open spec fn basic_line(indent: Seq<char>, glyph: char, name: Seq<char>, depth: nat) -> Seq<
    char,
> {
    repeat(indent, depth) + marked(glyph, name)
}

/// The lines of the drawn tree in front of a task: a corner for the root;
/// else a bar with its padding for each level above the parent, the branch, and
/// a tee where the task has children or a dash where it has none.
pub open spec fn pipes(connecter: Seq<char>, padding: Seq<char>, depth: nat, has_child: bool) -> Seq<
    char,
> {
    if depth == 0 {
        seq!['┌']
    } else {
        repeat(padding, (depth - 1) as nat) + connecter + seq![if has_child {
            '┬'
        } else {
            '─'
        }]
    }
}

/// The drawn style: the lines of the tree, then the marker and the name.
pub open spec fn fancy_line(
    connecter: Seq<char>,
    padding: Seq<char>,
    glyph: char,
    name: Seq<char>,
    depth: nat,
    has_child: bool,
) -> Seq<char> {
    pipes(connecter, padding, depth, has_child) + marked(glyph, name)
}

/// The indent of the plain style: `indent` spaces.
pub open spec fn basic_indent(indent: nat) -> Seq<char> {
    repeat(seq![' '], indent)
}

/// The branch of the drawn style: `├` and `indent` dashes.
pub open spec fn fancy_connecter(indent: nat) -> Seq<char> {
    seq!['├'] + repeat(seq!['─'], indent)
}

/// The bar of the drawn style: `│` and `indent` spaces.
pub open spec fn fancy_padding(indent: nat) -> Seq<char> {
    seq!['│'] + repeat(seq![' '], indent)
}

/// The plain style indents a task by the width of the indent for each level:
/// its line is that many blanks, then the marker and the name.
pub proof fn lemma_basic_indent(indent: nat, glyph: char, name: Seq<char>, depth: nat)
    ensures
        basic_line(basic_indent(indent), glyph, name, depth) == repeat(seq![' '], depth * indent)
            + marked(glyph, name),
{
    lemma_blanks(indent, depth);
}

/// Blanks repeated are blanks.
proof fn lemma_blanks(indent: nat, depth: nat)
    ensures
        repeat(repeat(seq![' '], indent), depth) == repeat(seq![' '], depth * indent),
    decreases depth,
{
    if depth > 0 {
        lemma_blanks(indent, (depth - 1) as nat);
        assert(depth * indent == (depth - 1) * indent + indent) by (nonlinear_arith);
        lemma_blanks_add(((depth - 1) * indent) as nat, indent);
    } else {
        assert(depth * indent == 0) by (nonlinear_arith)
            requires
                depth == 0,
        ;
    }
}

/// Blanks behind blanks are as many blanks as both.
proof fn lemma_blanks_add(a: nat, b: nat)
    ensures
        repeat(seq![' '], a) + repeat(seq![' '], b) == repeat(seq![' '], a + b),
    decreases b,
{
    if b > 0 {
        lemma_blanks_add(a, (b - 1) as nat);
        assert(repeat(seq![' '], a) + repeat(seq![' '], b) =~= (repeat(seq![' '], a) + repeat(
            seq![' '],
            (b - 1) as nat,
        )) + seq![' ']);
    } else {
        assert(repeat(seq![' '], a) + repeat(seq![' '], b) =~= repeat(seq![' '], a));
    }
}

/// The two styles.
#[derive(Clone, Copy, Debug, PartialEq, Eq, Structural)]
pub enum Type {
    Basic,
    Fancy,
}

/// What a formatter is set to.
pub struct FormatterView {
    pub indent: usize,
    pub completed: char,
    pub incomplete: char,
    pub form_type: Type,
}

/// The line a formatter with the given settings shows for a task.
pub open spec fn styled_line(
    f: FormatterView,
    name: Seq<char>,
    complete: bool,
    depth: nat,
    has_child: bool,
) -> Seq<char> {
    let g = glyph(f.completed, f.incomplete, complete);
    match f.form_type {
        Type::Basic => basic_line(basic_indent(f.indent as nat), g, name, depth),
        Type::Fancy => fancy_line(
            fancy_connecter(f.indent as nat),
            fancy_padding(f.indent as nat),
            g,
            name,
            depth,
            has_child,
        ),
    }
}

/// A string of one character and `n` copies of another.
fn headed(head: char, fill: char, n: usize) -> (r: String)
    ensures
        r@ == seq![head] + repeat(seq![fill], n as nat),
{
    let mut r = String::new();
    push_char(&mut r, head);
    let mut i: usize = 0;
    while i < n
        invariant
            i <= n,
            r@ == seq![head] + repeat(seq![fill], i as nat),
        decreases n - i,
    {
        push_char(&mut r, fill);
        assert(r@ =~= seq![head] + repeat(seq![fill], (i + 1) as nat));
        i += 1;
    }
    r
}

/// Appends the marker and the name to what stands in front of them.
fn finish(front: String, glyph: char, name: &str) -> (r: String)
    ensures
        r@ == front@ + marked(glyph, name@),
{
    let mut r = front;
    push_char(&mut r, '[');
    push_char(&mut r, glyph);
    push_char(&mut r, ']');
    push_char(&mut r, ':');
    push_char(&mut r, ' ');
    r.append(name);
    assert(r@ =~= front@ + marked(glyph, name@));
    r
}

/// Something that shows a task as one line.
pub trait Format {
    /// The line for a task of the given name and state, `depth` levels below
    /// the top of the listing.
    spec fn line(&self, name: Seq<char>, complete: bool, depth: nat, has_child: bool) -> Seq<char>;

    fn format(&self, entry: &Entry, depth: usize, has_child: bool) -> (r: String)
        ensures
            r@ == self.line(entry.name@, entry.complete, depth as nat, has_child),
    ;
}

/// The plain style.
#[derive(Clone, Debug)]
pub struct BasicForm {
    pub indent: String,
    pub completed: char,
    pub incomplete: char,
}

impl BasicForm {
    pub fn new(indent: usize, completed: char, incomplete: char) -> (r: Self)
        ensures
            r.indent@ == basic_indent(indent as nat),
            r.completed == completed,
            r.incomplete == incomplete,
    {
        proof {
            reveal_strlit(" ");
            assert(" "@ =~= seq![' ']);
        }
        BasicForm { indent: repeated(" ", indent), completed, incomplete }
    }

    fn comp(&self, complete: bool) -> (r: char)
        ensures
            r == glyph(self.completed, self.incomplete, complete),
    {
        if complete {
            self.completed
        } else {
            self.incomplete
        }
    }
}

impl Format for BasicForm {
    open spec fn line(&self, name: Seq<char>, complete: bool, depth: nat, has_child: bool) -> Seq<
        char,
    > {
        basic_line(self.indent@, glyph(self.completed, self.incomplete, complete), name, depth)
    }

    fn format(&self, entry: &Entry, depth: usize, _has_child: bool) -> (r: String) {
        finish(repeated(self.indent.as_str(), depth), self.comp(entry.complete), entry.name.as_str())
    }
}

/// The drawn style.
#[derive(Clone, Debug)]
pub struct FancyForm {
    pub connecter: String,
    pub padding: String,
    pub completed: char,
    pub incomplete: char,
}

impl FancyForm {
    pub fn new(indent: usize, completed: char, incomplete: char) -> (r: Self)
        ensures
            r.connecter@ == fancy_connecter(indent as nat),
            r.padding@ == fancy_padding(indent as nat),
            r.completed == completed,
            r.incomplete == incomplete,
    {
        FancyForm {
            connecter: headed('├', '─', indent),
            padding: headed('│', ' ', indent),
            completed,
            incomplete,
        }
    }

    fn comp(&self, complete: bool) -> (r: char)
        ensures
            r == glyph(self.completed, self.incomplete, complete),
    {
        if complete {
            self.completed
        } else {
            self.incomplete
        }
    }

    fn pipes(&self, depth: usize, has_child: bool) -> (r: String)
        ensures
            r@ == pipes(self.connecter@, self.padding@, depth as nat, has_child),
    {
        if depth == 0 {
            let mut r = String::new();
            push_char(&mut r, '┌');
            assert(r@ =~= seq!['┌']);
            r
        } else {
            let mut r = self.padding(depth);
            r.append(self.connecter.as_str());
            push_char(&mut r, self.child_connecter(has_child));
            r
        }
    }

    fn child_connecter(&self, has_child: bool) -> (r: char)
        ensures
            r == (if has_child {
                '┬'
            } else {
                '─'
            }),
    {
        if has_child {
            return '┬'
        }
        '─'
    }

    fn padding(&self, depth: usize) -> (r: String)
        requires
            depth >= 1,
        ensures
            r@ == repeat(self.padding@, (depth - 1) as nat),
    {
        if depth > 1 {
            repeated(self.padding.as_str(), depth - 1)
        } else {
            String::new()
        }
    }
}

impl Format for FancyForm {
    open spec fn line(&self, name: Seq<char>, complete: bool, depth: nat, has_child: bool) -> Seq<
        char,
    > {
        fancy_line(
            self.connecter@,
            self.padding@,
            glyph(self.completed, self.incomplete, complete),
            name,
            depth,
            has_child,
        )
    }

    fn format(&self, entry: &Entry, depth: usize, has_child: bool) -> (r: String) {
        finish(self.pipes(depth, has_child), self.comp(entry.complete), entry.name.as_str())
    }
}

#[derive(Clone, Debug)]
enum InternalFormatter {
    Basic(BasicForm),
    Fancy(FancyForm),
}

impl InternalFormatter {
    fn get_type(&self) -> (r: Type)
        ensures
            r == self.kind(),
    {
        match self {
            InternalFormatter::Basic(_) => Type::Basic,
            InternalFormatter::Fancy(_) => Type::Fancy,
        }
    }

    spec fn kind(&self) -> Type {
        match self {
            InternalFormatter::Basic(_) => Type::Basic,
            InternalFormatter::Fancy(_) => Type::Fancy,
        }
    }

    /// Whether this is the style that the settings describe.
    spec fn built_from(&self, indent: nat, completed: char, incomplete: char) -> bool {
        match self {
            InternalFormatter::Basic(x) => {
                &&& x.indent@ == basic_indent(indent)
                &&& x.completed == completed
                &&& x.incomplete == incomplete
            },
            InternalFormatter::Fancy(x) => {
                &&& x.connecter@ == fancy_connecter(indent)
                &&& x.padding@ == fancy_padding(indent)
                &&& x.completed == completed
                &&& x.incomplete == incomplete
            },
        }
    }
}

impl Type {
    fn into_formatter(self, indent: usize, completed: char, incomplete: char) -> (r:
        InternalFormatter)
        ensures
            r.kind() == self,
            r.built_from(indent as nat, completed, incomplete),
    {
        match self {
            Type::Basic => InternalFormatter::Basic(BasicForm::new(indent, completed, incomplete)),
            Type::Fancy => InternalFormatter::Fancy(FancyForm::new(indent, completed, incomplete)),
        }
    }
}

/// A formatter: its settings, and the style built from them.
#[derive(Debug)]
pub struct Formatter {
    indent: usize,
    completed: char,
    incomplete: char,
    formatter: InternalFormatter,
}

impl View for Formatter {
    type V = FormatterView;

    closed spec fn view(&self) -> FormatterView {
        FormatterView {
            indent: self.indent,
            completed: self.completed,
            incomplete: self.incomplete,
            form_type: self.formatter.kind(),
        }
    }
}

impl Clone for Formatter {
    fn clone(&self) -> (r: Self)
        ensures
            r@ == self@,
    {
        Formatter::new(self.indent, self.completed, self.incomplete, self.formatter.get_type())
    }
}

/// A setting after a change that may leave it as it is.
pub open spec fn changed<A>(old: A, new: Option<A>) -> A {
    match new {
        Some(x) => x,
        None => old,
    }
}

impl Formatter {
    /// The style always is the one built from the settings.
    #[verifier::type_invariant]
    spec fn consistent(self) -> bool {
        self.formatter.built_from(self.indent as nat, self.completed, self.incomplete)
    }

    pub fn new(indent: usize, completed: char, incomplete: char, form_type: Type) -> (r: Self)
        ensures
            r@ == (FormatterView { indent, completed, incomplete, form_type }),
    {
        Formatter {
            formatter: form_type.into_formatter(indent, completed, incomplete),
            indent: indent,
            completed: completed,
            incomplete: incomplete,
        }
    }

    /// The drawn style with an indent of one, `X` for done and a blank for not done.
    pub fn default() -> (r: Self)
        ensures
            r@ == (FormatterView {
                indent: 1,
                completed: 'X',
                incomplete: ' ',
                form_type: Type::Fancy,
            }),
    {
        Formatter::new(1, 'X', ' ', Type::Fancy)
    }

    pub fn get_indent(&self) -> (r: usize)
        ensures
            r == self@.indent,
    {
        self.indent
    }

    pub fn get_completed(&self) -> (r: char)
        ensures
            r == self@.completed,
    {
        self.completed
    }

    pub fn get_incomplete(&self) -> (r: char)
        ensures
            r == self@.incomplete,
    {
        self.incomplete
    }

    pub fn get_type(&self) -> (r: Type)
        ensures
            r == self@.form_type,
    {
        self.formatter.get_type()
    }

    /// Changes the settings that are given and keeps the others.
    pub fn set(
        &mut self,
        indent: Option<usize>,
        completed: Option<char>,
        incomplete: Option<char>,
        form_type: Option<Type>,
    )
        ensures
            final(self)@ == (FormatterView {
                indent: changed(old(self)@.indent, indent),
                completed: changed(old(self)@.completed, completed),
                incomplete: changed(old(self)@.incomplete, incomplete),
                form_type: changed(old(self)@.form_type, form_type),
            }),
    {
        let mut change = false;
        let mut new_indent = self.indent;
        let mut new_completed = self.completed;
        let mut new_incomplete = self.incomplete;

        if let Some(indent) = indent {
            new_indent = indent;
            change = true;
        }
        if let Some(completed) = completed {
            new_completed = completed;
            change = true;
        }
        if let Some(incomplete) = incomplete {
            new_incomplete = incomplete;
            change = true;
        }
        if change || form_type.is_some() {
            let new_type = if let Some(form_type) = form_type {
                form_type
            } else {
                self.formatter.get_type()
            };
            *self = Formatter::new(new_indent, new_completed, new_incomplete, new_type);
        }
    }
}

impl Format for Formatter {
    open spec fn line(&self, name: Seq<char>, complete: bool, depth: nat, has_child: bool) -> Seq<
        char,
    > {
        styled_line(self@, name, complete, depth, has_child)
    }

    fn format(&self, entry: &Entry, depth: usize, has_child: bool) -> (r: String) {
        proof {
            use_type_invariant(self);
        }
        match self.formatter {
            InternalFormatter::Basic(ref x) => x.format(entry, depth, has_child),
            InternalFormatter::Fancy(ref x) => x.format(entry, depth, has_child),
        }
    }
}

} // verus!

//! The syntax tree that the parser builds.
use vstd::prelude::*;

use crate::text::views;

verus! {

/// One program invocation: `program args... > outfile`.
#[derive(Debug)]
pub struct Command {
    pub program: String,
    pub args: Vec<String>,
    pub outfile: Option<String>,
}

/// The mathematical value of a [`Command`].
pub struct SpecCommand {
    pub program: Seq<char>,
    pub args: Seq<Seq<char>>,
    pub outfile: Option<Seq<char>>,
}

/// The view of an optional string.
pub open spec fn opt_view(o: Option<String>) -> Option<Seq<char>> {
    match o {
        Some(s) => Some(s@),
        None => None,
    }
}

impl View for Command {
    type V = SpecCommand;

    open spec fn view(&self) -> SpecCommand {
        SpecCommand { program: self.program@, args: views(self.args@), outfile: opt_view(self.outfile) }
    }
}

impl Command {
    /// A command with no arguments and no redirection.
    pub fn new(program: String) -> (r: Self)
        ensures
            r@ == (SpecCommand { program: program@, args: Seq::empty(), outfile: None }),
    {
        let r = Self { program, args: Vec::new(), outfile: None };
        assert(views(r.args@) =~= Seq::<Seq<char>>::empty());
        r
    }
}

/// When a statement runs, relative to the exit code of the one before it.
#[derive(Clone, Copy, Debug, PartialEq, Eq, Structural)]
pub enum Condition {
    Always,
    And,
    Or,
}

/// A statement of the shell language.
#[derive(Debug)]
pub enum Statement {
    If {
        condition: String,
        body: Vec<Statement>,
        else_if: Vec<(String, Vec<Statement>)>,
        else_body: Option<Vec<Statement>>,
    },
    While { condition: String, body: Vec<Statement> },
    For { variable: String, values: Vec<String>, body: Vec<Statement> },
    Command(Command),
    Pipeline(Vec<Command>),
}

/// The mathematical value of a [`Statement`].
pub enum SpecStatement {
    If {
        condition: Seq<char>,
        body: Seq<SpecStatement>,
        else_if: Seq<(Seq<char>, Seq<SpecStatement>)>,
        else_body: Option<Seq<SpecStatement>>,
    },
    While { condition: Seq<char>, body: Seq<SpecStatement> },
    For { variable: Seq<char>, values: Seq<Seq<char>>, body: Seq<SpecStatement> },
    Command(SpecCommand),
    Pipeline(Seq<SpecCommand>),
}

/// A statement together with the condition under which it runs.
#[derive(Debug)]
pub struct Executable {
    pub statement: Statement,
    pub condition: Condition,
}

/// The mathematical value of an [`Executable`].
pub struct SpecExecutable {
    pub statement: SpecStatement,
    pub condition: Condition,
}

/// The views of a sequence of commands.
pub open spec fn command_views(v: Seq<Command>) -> Seq<SpecCommand> {
    v.map_values(|c: Command| c@)
}

/// The view of a statement.
pub open spec fn statement_view(s: Statement) -> SpecStatement
    decreases s,
{
    match s {
        Statement::If { condition, body, else_if, else_body } => SpecStatement::If {
            condition: condition@,
            body: statements_view(body@),
            else_if: branches_view(else_if@),
            else_body: match else_body {
                Some(b) => Some(statements_view(b@)),
                None => None,
            },
        },
        Statement::While { condition, body } => SpecStatement::While {
            condition: condition@,
            body: statements_view(body@),
        },
        Statement::For { variable, values, body } => SpecStatement::For {
            variable: variable@,
            values: views(values@),
            body: statements_view(body@),
        },
        Statement::Command(c) => SpecStatement::Command(c@),
        Statement::Pipeline(cs) => SpecStatement::Pipeline(command_views(cs@)),
    }
}

/// The views of a sequence of statements.
pub open spec fn statements_view(v: Seq<Statement>) -> Seq<SpecStatement>
    decreases v,
{
    if v.len() == 0 {
        Seq::empty()
    } else {
        statements_view(v.subrange(0, v.len() - 1)).push(statement_view(v[v.len() - 1]))
    }
}

/// The views of the `elif` branches of an `if` statement.
pub open spec fn branches_view(v: Seq<(String, Vec<Statement>)>) -> Seq<(Seq<char>, Seq<SpecStatement>)>
    decreases v,
{
    if v.len() == 0 {
        Seq::empty()
    } else {
        branches_view(v.subrange(0, v.len() - 1)).push(
            (v[v.len() - 1].0@, statements_view(v[v.len() - 1].1@)),
        )
    }
}

impl View for Statement {
    type V = SpecStatement;

    open spec fn view(&self) -> SpecStatement {
        statement_view(*self)
    }
}

impl View for Executable {
    type V = SpecExecutable;

    open spec fn view(&self) -> SpecExecutable {
        SpecExecutable { statement: self.statement@, condition: self.condition }
    }
}

/// The views of a sequence of executables.
pub open spec fn executable_views(v: Seq<Executable>) -> Seq<SpecExecutable> {
    v.map_values(|e: Executable| e@)
}

/// Pushing a statement extends the view by its view.
pub proof fn lemma_statements_view_push(v: Seq<Statement>, s: Statement)
    ensures
        statements_view(v.push(s)) == statements_view(v).push(statement_view(s)),
{
    assert(v.push(s).subrange(0, v.len() as int) =~= v);
}

/// The view of a sequence of statements has the same length and the views of its items.
pub proof fn lemma_statements_view_index(v: Seq<Statement>)
    ensures
        statements_view(v).len() == v.len(),
        forall|i: int| 0 <= i < v.len() ==> #[trigger] statements_view(v)[i] == statement_view(v[i]),
    decreases v.len(),
{
    if v.len() > 0 {
        let w = v.subrange(0, v.len() - 1);
        lemma_statements_view_index(w);
        assert forall|i: int| 0 <= i < v.len() implies #[trigger] statements_view(v)[i]
            == statement_view(v[i]) by {
            if i < v.len() - 1 {
                assert(w[i] == v[i]);
            }
        }
    }
}

/// Pushing a branch extends the view by its view.
pub proof fn lemma_branches_view_push(v: Seq<(String, Vec<Statement>)>, b: (String, Vec<Statement>))
    ensures
        branches_view(v.push(b)) == branches_view(v).push((b.0@, statements_view(b.1@))),
{
    assert(v.push(b).subrange(0, v.len() as int) =~= v);
}

} // verus!

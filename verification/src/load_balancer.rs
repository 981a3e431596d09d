use vstd::prelude::*;

use crate::cmd_interpreter::{
    command_outcome, command_words, dbs_view, keyword_table, lemma_own_keywords_never_panic,
    outcome_dbs, outcome_result,
    CmdInterpreter, CommandError, CommandOutcome, CommandWordDat,
};
use crate::db::{Db, DbView};
use crate::str_map::StrMap;

verus! {

/// What a connection may do.
#[derive(PartialEq, Eq, Structural, Debug, Clone, Copy)]
pub enum Permission {
    Read,
    ReadWrite,
}

/// A client connection and the command it sent.
#[derive(Debug)]
pub struct Connection {
    pub permission: Permission,
    pub command: String,
    /// Whether the connection has sent something to run.
    pub can_execute: bool,
}

/// Buffered readers of the connections.
pub struct BufferedReaders {}

/// Buffered reader-writers of the connections.
pub struct BufferedReadWriters {}

/// Whether a database in memory differs from what was last saved.
#[derive(PartialEq, Eq, Structural, Debug, Clone, Copy)]
pub enum StatusFlag {
    Dirty,
    Clean,
}

/// The databases a command leaves and how it ended, run on `dbs` by an
/// interpreter that knows `keywords`.
pub open spec fn command_effect(
    keywords: Map<Seq<char>, crate::cmd_interpreter::KeywordAttrs>,
    command: Seq<char>,
    current_database: Seq<char>,
    dbs: Map<Seq<char>, (StatusFlag, DbView)>,
) -> CommandOutcome {
    command_outcome(command_words(keywords, command), dbs, current_database)
}

/// The commands the load balancer runs on its own: each with the database it
/// is run on.
pub open spec fn startup_commands() -> Seq<(Seq<char>, Seq<char>)> {
    seq![
        ("create_db horses"@, ""@),
        ("create_table horseshoes type RS quality RS quantity RI price RI"@, "horses"@),
        ("insert_into horseshoes metal good 33 140"@, "horses"@),
    ]
}

/// The start-up commands, each with the database it is run on.
pub fn startup_command_list() -> (cmds: Vec<(String, String)>)
    ensures
        cmds@.len() == startup_commands().len(),
        forall|i: int|
            0 <= i < cmds@.len() ==> (#[trigger] cmds@[i].0@, cmds@[i].1@) == startup_commands()[i],
{
    let mut cmds: Vec<(String, String)> = Vec::new();
    cmds.push(("create_db horses".to_owned(), "".to_owned()));
    cmds.push(
        (
            "create_table horseshoes type RS quality RS quantity RI price RI".to_owned(),
            "horses".to_owned(),
        ),
    );
    cmds.push(("insert_into horseshoes metal good 33 140".to_owned(), "horses".to_owned()));
    cmds
}

/// The databases after running `cmds` in order, stopping where the
/// interpreter would panic.
pub open spec fn run_commands(
    keywords: Map<Seq<char>, crate::cmd_interpreter::KeywordAttrs>,
    cmds: Seq<(Seq<char>, Seq<char>)>,
    dbs: Map<Seq<char>, (StatusFlag, DbView)>,
) -> Map<Seq<char>, (StatusFlag, DbView)>
    decreases cmds.len(),
{
    if cmds.len() == 0 {
        dbs
    } else {
        let o = command_effect(keywords, cmds[0].0, cmds[0].1, dbs);
        if o is Panics {
            outcome_dbs(o)
        } else {
            run_commands(keywords, cmds.drop_first(), outcome_dbs(o))
        }
    }
}

/// The last of `cmds` that runs: the last one, or the first on which the
/// interpreter would panic.
pub open spec fn last_command_run(
    keywords: Map<Seq<char>, crate::cmd_interpreter::KeywordAttrs>,
    cmds: Seq<(Seq<char>, Seq<char>)>,
    dbs: Map<Seq<char>, (StatusFlag, DbView)>,
) -> Seq<char>
    decreases cmds.len(),
{
    if cmds.len() <= 1 {
        if cmds.len() == 1 {
            cmds[0].0
        } else {
            Seq::empty()
        }
    } else {
        let o = command_effect(keywords, cmds[0].0, cmds[0].1, dbs);
        if o is Panics {
            cmds[0].0
        } else {
            last_command_run(keywords, cmds.drop_first(), outcome_dbs(o))
        }
    }
}

/// The server's state: its connections by id, the databases in memory by
/// name (each with whether it changed since it was saved) and the command
/// interpreter.
#[derive(Debug)]
pub struct LoadBalancer {
    pub connections: StrMap<Connection>,
    pub pages: StrMap<(StatusFlag, Db)>,
    pub cmd_interpreter: CmdInterpreter,
}

impl LoadBalancer {
    /// No connections, no databases, an interpreter with no command.
    pub fn new() -> (lb: Self)
        ensures
            lb.connections@ == Map::<Seq<char>, Connection>::empty(),
            lb.pages@ == Map::<Seq<char>, (StatusFlag, Db)>::empty(),
            lb.cmd_interpreter.keywords@ == keyword_table(),
            lb.cmd_interpreter.current_columns@.len() == 0,
            lb.cmd_interpreter.current_btreemap@ == Map::<usize, CommandWordDat>::empty(),
            lb.cmd_interpreter.well_indexed(),
    {
        LoadBalancer {
            connections: StrMap::new(),
            pages: StrMap::new(),
            cmd_interpreter: CmdInterpreter::new(),
        }
    }

    /// Reads `command` and runs it on the databases, with `current_database`
    /// as the database its tables belong to; `None` where the interpreter
    /// would panic (the databases then stay as the keywords before left them).
    pub fn run_command(&mut self, command: String, current_database: String) -> (r: Option<
        Result<(), CommandError>,
    >)
        ensures
            ({
                let o = command_effect(
                    old(self).cmd_interpreter.keywords@,
                    command@,
                    current_database@,
                    dbs_view(old(self).pages@),
                );
                r == outcome_result(o) && dbs_view(final(self).pages@) == outcome_dbs(o)
            }),
            final(self).connections == old(self).connections,
            final(self).cmd_interpreter.keywords == old(self).cmd_interpreter.keywords,
            final(self).cmd_interpreter.current_columns == old(self).cmd_interpreter.current_columns,
            final(self).cmd_interpreter.well_indexed(),
            final(self).cmd_interpreter.words() == command_words(
                old(self).cmd_interpreter.keywords@,
                command@,
            ),
    {
        self.cmd_interpreter.set_btreemap(command);
        self.cmd_interpreter.try_interpret_command(&mut self.pages, &current_database)
    }

    /// Runs the start-up commands: makes database `horses`, a table
    /// `horseshoes` in it with string columns `type` and `quality` and integer
    /// columns `quantity` and `price`, and puts a row in it. Stops where the
    /// interpreter would panic; the interpreter is left holding the words of
    /// the last command run (with its own keywords, the `insert_into`).
    pub fn execute_cmd(&mut self)
        ensures
            dbs_view(final(self).pages@) == run_commands(
                old(self).cmd_interpreter.keywords@,
                startup_commands(),
                dbs_view(old(self).pages@),
            ),
            final(self).connections == old(self).connections,
            final(self).cmd_interpreter.keywords == old(self).cmd_interpreter.keywords,
            final(self).cmd_interpreter.current_columns == old(self).cmd_interpreter.current_columns,
            final(self).cmd_interpreter.well_indexed(),
            final(self).cmd_interpreter.words() == command_words(
                old(self).cmd_interpreter.keywords@,
                last_command_run(
                    old(self).cmd_interpreter.keywords@,
                    startup_commands(),
                    dbs_view(old(self).pages@),
                ),
            ),
            old(self).cmd_interpreter.keywords@ == keyword_table() ==> final(self).cmd_interpreter.words()
                == command_words(
                keyword_table(),
                "insert_into horseshoes metal good 33 140"@,
            ),
    {
        let ghost cmds = startup_commands();
        let ghost kw = self.cmd_interpreter.keywords@;
        let ghost dbs0 = dbs_view(self.pages@);
        proof {
            reveal_with_fuel(run_commands, 4);
            reveal_with_fuel(last_command_run, 4);
            lemma_own_keywords_never_panic(cmds[0].0, dbs0, cmds[0].1);
        }
        if self.run_command("create_db horses".to_owned(), "".to_owned()).is_none() {
            return;
        }
        assert(cmds.drop_first()[0] == cmds[1]);
        proof {
            lemma_own_keywords_never_panic(cmds[1].0, dbs_view(self.pages@), cmds[1].1);
        }
        if self.run_command(
            "create_table horseshoes type RS quality RS quantity RI price RI".to_owned(),
            "horses".to_owned(),
        ).is_none() {
            return;
        }
        assert(cmds.drop_first().drop_first()[0] == cmds[2]);
        assert(cmds.drop_first().drop_first().drop_first().len() == 0);
        self.run_command("insert_into horseshoes metal good 33 140".to_owned(), "horses".to_owned());
    }
}

} // verus!

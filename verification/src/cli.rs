//! The command line as plain values, and the plan each command leads to.
//! Paths are carried as the text the user gave.

use vstd::prelude::*;

use crate::query::QueryOptions;

pub mod build_index;
pub mod query;
pub mod stats;
pub mod update;

verus! {

/// Shared index location arguments.
#[derive(Debug, Clone)]
pub struct IndexLocationArgs {
    pub path: String,
    pub db: Option<String>,
    pub json: bool,
}

/// Build a fresh index for a workspace.
#[derive(Debug, Clone)]
pub struct BuildArgs {
    pub location: IndexLocationArgs,
}

/// Incrementally update an existing index.
#[derive(Debug, Clone)]
pub struct UpdateArgs {
    pub location: IndexLocationArgs,
}

/// Print index statistics.
#[derive(Debug, Clone)]
pub struct StatsArgs {
    pub location: IndexLocationArgs,
}

/// Query subcommands.
#[derive(Debug, Clone)]
pub enum QueryCommand {
    Symbol { query: String },
    File { query: String },
    Explain { query: String },
    Entrypoints,
    Outline { path: String },
    Neighbors { qualname: String },
    ReadSymbol { qualname: String },
    Snippet { path: String, start: usize, end: usize },
    Suggest { query: String },
}

/// Query the index.
#[derive(Debug, Clone)]
pub struct QueryArgs {
    pub workspace: String,
    pub db: Option<String>,
    pub json: bool,
    pub compact: bool,
    pub expand: u8,
    pub command: QueryCommand,
}

/// Top-level commands.
#[derive(Debug, Clone)]
pub enum Command {
    Build(BuildArgs),
    Update(UpdateArgs),
    Stats(StatsArgs),
    Query(QueryArgs),
}

/// Command-line interface of the indexer.
#[derive(Debug, Clone)]
pub struct Cli {
    pub command: Command,
}

/// What a query command runs, with everything it needs.
#[derive(Debug, Clone)]
pub enum QueryPlan {
    Symbol { workspace: String, db: Option<String>, query: String, json: bool, options: QueryOptions },
    File { workspace: String, db: Option<String>, query: String, json: bool, options: QueryOptions },
    Explain { workspace: String, db: Option<String>, query: String, json: bool, options: QueryOptions },
    Entrypoints { workspace: String, db: Option<String>, json: bool },
    Outline { workspace: String, db: Option<String>, path: String, json: bool, options: QueryOptions },
    Neighbors {
        workspace: String,
        db: Option<String>,
        qualname: String,
        json: bool,
        options: QueryOptions,
    },
    ReadSymbol { workspace: String, db: Option<String>, qualname: String, json: bool },
    Snippet {
        workspace: String,
        db: Option<String>,
        path: String,
        start: usize,
        end: usize,
        json: bool,
    },
    Suggest { workspace: String, db: Option<String>, query: String, json: bool, options: QueryOptions },
}

/// What a command runs.
#[derive(Debug, Clone)]
pub enum Action {
    Build(BuildArgs),
    Update(UpdateArgs),
    Stats(StatsArgs),
    Query(QueryPlan),
}

/// The plan of a query command: its subcommand with the workspace, index
/// and output options of the query.
pub open spec fn dispatch_spec(args: QueryArgs) -> QueryPlan {
    let o = QueryOptions { compact: args.compact, expand: args.expand };
    let w = args.workspace;
    let d = args.db;
    let j = args.json;
    match args.command {
        QueryCommand::Symbol { query } => QueryPlan::Symbol { workspace: w, db: d, query, json: j, options: o },
        QueryCommand::File { query } => QueryPlan::File { workspace: w, db: d, query, json: j, options: o },
        QueryCommand::Explain { query } => QueryPlan::Explain { workspace: w, db: d, query, json: j, options: o },
        QueryCommand::Entrypoints => QueryPlan::Entrypoints { workspace: w, db: d, json: j },
        QueryCommand::Outline { path } => QueryPlan::Outline { workspace: w, db: d, path, json: j, options: o },
        QueryCommand::Neighbors { qualname } => QueryPlan::Neighbors {
            workspace: w,
            db: d,
            qualname,
            json: j,
            options: o,
        },
        QueryCommand::ReadSymbol { qualname } => QueryPlan::ReadSymbol { workspace: w, db: d, qualname, json: j },
        QueryCommand::Snippet { path, start, end } => QueryPlan::Snippet {
            workspace: w,
            db: d,
            path,
            start,
            end,
            json: j,
        },
        QueryCommand::Suggest { query } => QueryPlan::Suggest { workspace: w, db: d, query, json: j, options: o },
    }
}

/// Plans a query command.
pub fn dispatch(args: QueryArgs) -> (r: QueryPlan)
    ensures
        r == dispatch_spec(args),
{
    let options = QueryOptions::new(args.compact, args.expand);
    let w = args.workspace;
    let d = args.db;
    let j = args.json;
    match args.command {
        QueryCommand::Symbol { query } => QueryPlan::Symbol { workspace: w, db: d, query, json: j, options },
        QueryCommand::File { query } => QueryPlan::File { workspace: w, db: d, query, json: j, options },
        QueryCommand::Explain { query } => QueryPlan::Explain { workspace: w, db: d, query, json: j, options },
        QueryCommand::Entrypoints => QueryPlan::Entrypoints { workspace: w, db: d, json: j },
        QueryCommand::Outline { path } => QueryPlan::Outline { workspace: w, db: d, path, json: j, options },
        QueryCommand::Neighbors { qualname } => QueryPlan::Neighbors {
            workspace: w,
            db: d,
            qualname,
            json: j,
            options,
        },
        QueryCommand::ReadSymbol { qualname } => QueryPlan::ReadSymbol { workspace: w, db: d, qualname, json: j },
        QueryCommand::Snippet { path, start, end } => QueryPlan::Snippet {
            workspace: w,
            db: d,
            path,
            start,
            end,
            json: j,
        },
        QueryCommand::Suggest { query } => QueryPlan::Suggest { workspace: w, db: d, query, json: j, options },
    }
}

/// The action of a command line.
pub open spec fn run_spec(cli: Cli) -> Action {
    match cli.command {
        Command::Build(a) => Action::Build(a),
        Command::Update(a) => Action::Update(a),
        Command::Stats(a) => Action::Stats(a),
        Command::Query(a) => Action::Query(dispatch_spec(a)),
    }
}

/// Plans a command line: building, updating and statistics run with their
/// arguments, a query with its plan.
pub fn run(cli: Cli) -> (r: Action)
    ensures
        r == run_spec(cli),
{
    match cli.command {
        Command::Build(a) => build_index::handle(a),
        Command::Update(a) => update::handle(a),
        Command::Stats(a) => stats::handle(a),
        Command::Query(a) => Action::Query(query::handle(a)),
    }
}

} // verus!

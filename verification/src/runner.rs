//! The decisions of a run of a program: which stage produces the values, how
//! they are printed, and what is done with each item that the producer gives.
//! The reading, decoding and writing themselves are done by the caller.
use vstd::prelude::*;
use crate::program::{AST, Formatter};

verus! {

/// The last stage of a program, which produces the values of a run: decoded
/// entries, mapped records, or query values.
#[derive(Clone, Copy, Debug, PartialEq, Eq, Structural)]
pub enum Producer {
    Decoder,
    Mapper,
    Querier,
}

/// What the producer gave.
#[derive(Clone, Copy, Debug, PartialEq, Eq, Structural)]
pub enum Item {
    /// A value.
    Value,
    /// An item that could not be read or decoded.
    Failed,
    /// The end of the input.
    End,
}

/// What to do with an item.
#[derive(Clone, Copy, Debug, PartialEq, Eq, Structural)]
pub enum Action {
    /// Format the value and write it.
    Write,
    /// Report the failure, then go on.
    Report,
    /// Go on with the next item.
    Skip,
    /// Stop the run.
    Stop,
}

pub open spec fn spec_producer(has_mapper: bool, has_query: bool) -> Producer {
    if !has_mapper {
        Producer::Decoder
    } else if !has_query {
        Producer::Mapper
    } else {
        Producer::Querier
    }
}

pub open spec fn spec_action(item: Item, verbose: bool) -> Action {
    match item {
        Item::Value => Action::Write,
        Item::Failed => if verbose { Action::Report } else { Action::Skip },
        Item::End => Action::Stop,
    }
}

/// A run of a program.
pub struct Runner {
    producer: Producer,
    formatter: Formatter,
    verbose: bool,
}

impl Runner {
    pub closed spec fn producer_spec(&self) -> Producer {
        self.producer
    }

    pub closed spec fn formatter_spec(&self) -> Formatter {
        self.formatter
    }

    pub closed spec fn verbose_spec(&self) -> bool {
        self.verbose
    }

    /// The run of a parsed program: the values come from the last stage it
    /// has (a query needs a map stage, whose records it reads); they are
    /// printed by its formatter, JSON when it has none.
    pub fn new(ast: &AST, verbose: bool) -> (r: Runner)
        ensures
            r.producer_spec() == spec_producer(ast.mapper is Some, ast.query is Some),
            r.formatter_spec() == match ast.formatter {
                Some(f) => f,
                None => Formatter::JSON,
            },
            r.verbose_spec() == verbose,
    {
        let producer = if ast.mapper.is_none() {
            Producer::Decoder
        } else if ast.query.is_none() {
            Producer::Mapper
        } else {
            Producer::Querier
        };
        let formatter = match &ast.formatter {
            Some(Formatter::HumanReadable) => Formatter::HumanReadable,
            Some(Formatter::JSON) => Formatter::JSON,
            Some(Formatter::PromAPI) => Formatter::PromAPI,
            None => Formatter::JSON,
        };
        Runner { producer, formatter, verbose }
    }

    pub fn producer(&self) -> (p: Producer)
        ensures
            p == self.producer_spec(),
    {
        self.producer
    }

    pub fn formatter(&self) -> (f: Formatter)
        ensures
            f == self.formatter_spec(),
    {
        match self.formatter {
            Formatter::HumanReadable => Formatter::HumanReadable,
            Formatter::JSON => Formatter::JSON,
            Formatter::PromAPI => Formatter::PromAPI,
        }
    }

    /// What the run does with the next item: a value is written, a failure is
    /// reported when verbose and skipped otherwise, and the end stops the run.
    pub fn on_item(&self, item: Item) -> (a: Action)
        ensures
            a == spec_action(item, self.verbose_spec()),
    {
        match item {
            Item::Value => Action::Write,
            Item::Failed => if self.verbose { Action::Report } else { Action::Skip },
            Item::End => Action::Stop,
        }
    }

    /// Whether a formatted value is written: only when it is not empty.
    pub fn write(&self, formatted_len: usize) -> (w: bool)
        ensures
            w == (formatted_len > 0),
    {
        formatted_len > 0
    }
}

/// The stage of a pipeline that produces what it writes: decoded entries, or
/// records of a pattern.
#[derive(Clone, Copy, Debug, PartialEq, Eq, Structural)]
pub enum PipelineSource {
    Entries,
    Records,
}

/// A pipeline from a reader to a writer.
pub struct Pipeline {
    source: PipelineSource,
    line_no: usize,
}

impl Pipeline {
    pub closed spec fn source_spec(&self) -> PipelineSource {
        self.source
    }

    pub closed spec fn line_no_spec(&self) -> nat {
        self.line_no as nat
    }

    /// A pipeline whose records come from `pattern` when there is one, and
    /// which writes decoded entries otherwise.
    pub fn new(pattern: Option<String>) -> (p: Pipeline)
        ensures
            p.source_spec() == if pattern is Some { PipelineSource::Records } else { PipelineSource::Entries },
            p.line_no_spec() == 0,
    {
        Pipeline { source: if pattern.is_some() { PipelineSource::Records } else { PipelineSource::Entries }, line_no: 0 }
    }

    pub fn source(&self) -> (s: PipelineSource)
        ensures
            s == self.source_spec(),
    {
        self.source
    }

    /// Counts a line read from the input and gives its number (from 1); a line
    /// that fails to decode is skipped, the next one taking the next number.
    pub fn next_line(&mut self) -> (n: usize)
        requires
            old(self).line_no_spec() < usize::MAX,
        ensures
            n == old(self).line_no_spec() + 1,
            final(self).line_no_spec() == n,
            final(self).source_spec() == old(self).source_spec(),
    {
        self.line_no = self.line_no + 1;
        self.line_no
    }

    /// What the run does with the next item: a value is written, and both
    /// the end of the input and a failure to read it stop the run (the
    /// failure with its error).
    pub fn run(&self, item: Item) -> (a: Action)
        ensures
            a == match item {
                Item::Value => Action::Write,
                _ => Action::Stop,
            },
    {
        match item {
            Item::Value => Action::Write,
            Item::Failed => Action::Stop,
            Item::End => Action::Stop,
        }
    }
}


/// A value is written, the end stops the run, and a failure is reported
/// exactly when the run is verbose (it never stops the run); the values come
/// from the query when there is one (after a map), else from the map, else
/// from the decoder.
pub proof fn law_run_decisions(item: Item, verbose: bool, has_mapper: bool, has_query: bool)
    ensures
        (spec_action(item, verbose) == Action::Write) <==> item == Item::Value,
        (spec_action(item, verbose) == Action::Stop) <==> item == Item::End,
        (spec_action(item, verbose) == Action::Report) <==> (item == Item::Failed && verbose),
        (spec_action(item, verbose) == Action::Skip) <==> (item == Item::Failed && !verbose),
        (spec_producer(has_mapper, has_query) == Producer::Decoder) <==> !has_mapper,
        (spec_producer(has_mapper, has_query) == Producer::Querier) <==> (has_mapper && has_query),
        (spec_producer(has_mapper, has_query) == Producer::Mapper) <==> (has_mapper && !has_query),
{
}

} // verus!

//! The settings of a session: which engine to start, the options to give
//! it, and the limit of every search.

use crate::engine::{setoption_line, EngineInput, Limit};
use crate::text::{spaced, underscores_to_spaces};
use vstd::prelude::*;
use vstd::string::*;

verus! {

/// The engine to start and the options to give it once it runs.
pub struct Eng {
    /// The engine's executable.
    pub command: String,
    /// The arguments to start it with, if any.
    pub args: Option<Vec<String>>,
    /// Option names and values, in the order in which they are to be set. A
    /// name is written with underscores where the engine has spaces.
    pub config: Option<Vec<(String, String)>>,
}

/// The settings of a session.
pub struct ConfigOptions {
    pub engine: Eng,
    pub limit: Limit,
}

/// The views of a list of names and values.
pub open spec fn pairs(v: Seq<(String, String)>) -> Seq<(Seq<char>, Seq<char>)> {
    v.map_values(|p: (String, String)| (p.0@, p.1@))
}

/// The commands that set `options`, in order, each name with its
/// underscores turned into spaces.
pub open spec fn option_lines(options: Seq<(Seq<char>, Seq<char>)>) -> Seq<char>
    decreases options.len(),
{
    if options.len() == 0 {
        Seq::empty()
    } else {
        option_lines(options.drop_last()) + setoption_line(
            spaced(options.last().0),
            options.last().1,
        )
    }
}

impl ConfigOptions {
    /// The options that are configured, none where the settings name none.
    pub open spec fn options(&self) -> Seq<(Seq<char>, Seq<char>)> {
        match self.engine.config {
            Some(config) => pairs(config@),
            None => Seq::empty(),
        }
    }

    /// Issues the commands that set the configured options.
    pub fn setup_engine(&self, einp: &mut EngineInput)
        ensures
            final(einp)@ == old(einp)@ + option_lines(self.options()),
    {
        match &self.engine.config {
            Some(config) => {
                let mut i: usize = 0;
                assert(einp@ =~= old(einp)@ + option_lines(pairs(config@).subrange(0, 0)));
                while i < config.len()
                    invariant
                        i <= config.len(),
                        einp@ == old(einp)@ + option_lines(pairs(config@).subrange(0, i as int)),
                    decreases config.len() - i,
                {
                    let name = underscores_to_spaces(config[i].0.as_str());
                    einp.setoption(name.as_str(), config[i].1.as_str());
                    proof {
                        let done = pairs(config@).subrange(0, i + 1);
                        assert(done.drop_last() =~= pairs(config@).subrange(0, i as int));
                        assert(done.last() == (config@[i as int].0@, config@[i as int].1@));
                        assert(einp@ =~= old(einp)@ + option_lines(done));
                    }
                    i += 1;
                }
                assert(pairs(config@).subrange(0, i as int) =~= pairs(config@));
            },
            None => {
                assert(einp@ =~= old(einp)@ + option_lines(self.options()));
            },
        }
    }

    /// The limit of every search of the session.
    pub fn limit(&self) -> (r: Limit)
        ensures
            r == self.limit,
    {
        self.limit
    }
}

} // verus!

//! The state that the command line and desktop front ends keep between
//! conversions.
use vstd::prelude::*;
use vstd::string::StringExecFns;
use crate::config::Config;

verus! {

/// How many log lines the front end keeps.
pub const LOG_LINES: usize = 3;

/// Whether a run writes one merged chart or one chart per note track.
#[derive(Clone, Copy, PartialEq, Eq, Structural, Debug)]
pub enum ComboBoxConversion {
    SingleOutput,
    MultiOutput,
}

/// The difficulty under which a merged chart is written.
#[derive(Clone, Copy, PartialEq, Eq, Structural, Debug)]
pub enum Difficulty {
    Easy,
    Normal,
    Hard,
}

impl Default for ComboBoxConversion {
    fn default() -> (r: ComboBoxConversion)
        ensures
            r == ComboBoxConversion::SingleOutput,
    {
        ComboBoxConversion::SingleOutput
    }
}

impl Default for Difficulty {
    fn default() -> (r: Difficulty)
        ensures
            r == Difficulty::Easy,
    {
        Difficulty::Easy
    }
}

impl ComboBoxConversion {
    /// The label shown for the output type.
    pub fn label(&self) -> (r: String)
        ensures
            *self == ComboBoxConversion::SingleOutput ==> r@ == seq!['S', 'i', 'n', 'g', 'l', 'e'],
            *self == ComboBoxConversion::MultiOutput ==> r@ == seq!['M', 'u', 'l', 't', 'i'],
    {
        match self {
            ComboBoxConversion::SingleOutput => {
                let r = String::from_str("Single");
                proof {
                    reveal_strlit("Single");
                }
                r
            },
            ComboBoxConversion::MultiOutput => {
                let r = String::from_str("Multi");
                proof {
                    reveal_strlit("Multi");
                }
                r
            },
        }
    }
}

impl Difficulty {
    /// The difficulty's name, which is also the file name of a merged chart.
    pub fn label(&self) -> (r: String)
        ensures
            *self == Difficulty::Easy ==> r@ == seq!['E', 'a', 's', 'y'],
            *self == Difficulty::Normal ==> r@ == seq!['N', 'o', 'r', 'm', 'a', 'l'],
            *self == Difficulty::Hard ==> r@ == seq!['H', 'a', 'r', 'd'],
    {
        match self {
            Difficulty::Easy => {
                let r = String::from_str("Easy");
                proof {
                    reveal_strlit("Easy");
                }
                r
            },
            Difficulty::Normal => {
                let r = String::from_str("Normal");
                proof {
                    reveal_strlit("Normal");
                }
                r
            },
            Difficulty::Hard => {
                let r = String::from_str("Hard");
                proof {
                    reveal_strlit("Hard");
                }
                r
            },
        }
    }
}

/// The file name of a chart: its name followed by the configured extension.
pub fn output_file_name(name: &String, extension: &String) -> (r: String)
    ensures
        r@ == name@ + extension@,
{
    let mut r = name.clone();
    r.append(extension.as_str());
    r
}

/// The log after recording `msg`: appended, and the oldest line dropped
/// once there are more than `LOG_LINES`.
pub open spec fn logged(log: Seq<String>, msg: String) -> Seq<String> {
    if log.len() + 1 > LOG_LINES {
        log.push(msg).drop_first()
    } else {
        log.push(msg)
    }
}

/// The front end's state.
pub struct TaikoApp {
    pub source_path: Option<String>,
    pub output_path: Option<String>,
    pub output_type: ComboBoxConversion,
    pub difficulty: Difficulty,
    pub config: Config,
    pub log: Vec<String>,
}

impl TaikoApp {
    /// A fresh state under `config`: no paths chosen, single output at the
    /// easy difficulty, and an empty log.
    pub fn from_config(config: Config) -> (r: TaikoApp)
        ensures
            r.config == config,
            r.source_path is None,
            r.output_path is None,
            r.output_type == ComboBoxConversion::SingleOutput,
            r.difficulty == Difficulty::Easy,
            r.log@.len() == 0,
    {
        TaikoApp {
            source_path: None,
            output_path: None,
            output_type: ComboBoxConversion::default(),
            difficulty: Difficulty::default(),
            config,
            log: Vec::new(),
        }
    }

    /// Records a log line, keeping the most recent ones.
    pub fn log_str(&mut self, msg: String)
        ensures
            final(self).log@ == logged(old(self).log@, msg),
            final(self).source_path == old(self).source_path,
            final(self).output_path == old(self).output_path,
            final(self).output_type == old(self).output_type,
            final(self).difficulty == old(self).difficulty,
            final(self).config == old(self).config,
    {
        self.log.push(msg);
        if self.log.len() > LOG_LINES {
            self.log.remove(0);
            assert(self.log@ =~= logged(old(self).log@, msg));
        }
    }
}

} // verus!

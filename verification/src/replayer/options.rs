//! The options of the replayer and which of them go together.
use crate::replayer::filter::Filter;
use vstd::prelude::*;

verus! {

/// The options as they were given.
#[derive(Debug, PartialEq, Eq)]
pub struct Args {
    /// Archive files to read.
    pub files: Vec<String>,
    /// List peers found in the archive.
    pub list_peers: bool,
    /// Draw the messages as a sequence diagram.
    pub sequence_diagram: bool,
    /// The peers in the diagram; none for all.
    pub peers: Vec<u64>,
    /// The file that the diagram is written to as a page.
    pub html: Option<String>,
    /// The file that the messages are written to as comma-separated values.
    pub csv: Option<String>,
    /// Which events are looked at.
    pub filter: Filter,
}

/// What is made of an archive.
#[derive(Clone, Copy, Debug, PartialEq, Eq, Structural)]
pub enum Mode {
    /// Its events are listed.
    Events,
    /// Its peers are listed.
    Peers,
    /// Its messages are drawn.
    Diagram,
    /// Its messages are written as comma-separated values.
    Csv,
}

/// Why options do not go together.
#[derive(Clone, Copy, Debug, PartialEq, Eq, Structural)]
pub enum ArgsError {
    NoFiles,
    PeerWithoutDiagram,
    HtmlWithoutDiagram,
    ListPeersWithDiagram,
    CsvWithDiagram,
    CsvWithListPeers,
    SeveralFiles,
}

/// What the options ask for, or the first reason why they do not go together.
pub open spec fn chosen_mode(args: Args) -> Result<Mode, ArgsError> {
    if args.files@.len() == 0 {
        Err(ArgsError::NoFiles)
    } else if args.peers@.len() > 0 && !args.sequence_diagram {
        Err(ArgsError::PeerWithoutDiagram)
    } else if args.html is Some && !args.sequence_diagram {
        Err(ArgsError::HtmlWithoutDiagram)
    } else if args.list_peers && args.sequence_diagram {
        Err(ArgsError::ListPeersWithDiagram)
    } else if args.csv is Some && args.sequence_diagram {
        Err(ArgsError::CsvWithDiagram)
    } else if args.csv is Some && args.list_peers {
        Err(ArgsError::CsvWithListPeers)
    } else if (args.sequence_diagram || args.csv is Some) && args.files@.len() > 1 {
        Err(ArgsError::SeveralFiles)
    } else if args.sequence_diagram {
        Ok(Mode::Diagram)
    } else if args.csv is Some {
        Ok(Mode::Csv)
    } else if args.list_peers {
        Ok(Mode::Peers)
    } else {
        Ok(Mode::Events)
    }
}

impl Args {
    /// What the options ask for, or why they do not go together.
    pub fn mode(&self) -> (r: Result<Mode, ArgsError>)
        ensures
            r == chosen_mode(*self),
    {
        if self.files.len() == 0 {
            Err(ArgsError::NoFiles)
        } else if self.peers.len() > 0 && !self.sequence_diagram {
            Err(ArgsError::PeerWithoutDiagram)
        } else if self.html.is_some() && !self.sequence_diagram {
            Err(ArgsError::HtmlWithoutDiagram)
        } else if self.list_peers && self.sequence_diagram {
            Err(ArgsError::ListPeersWithDiagram)
        } else if self.csv.is_some() && self.sequence_diagram {
            Err(ArgsError::CsvWithDiagram)
        } else if self.csv.is_some() && self.list_peers {
            Err(ArgsError::CsvWithListPeers)
        } else if (self.sequence_diagram || self.csv.is_some()) && self.files.len() > 1 {
            Err(ArgsError::SeveralFiles)
        } else if self.sequence_diagram {
            Ok(Mode::Diagram)
        } else if self.csv.is_some() {
            Ok(Mode::Csv)
        } else if self.list_peers {
            Ok(Mode::Peers)
        } else {
            Ok(Mode::Events)
        }
    }
}

/// What is said of options that do not go together.
pub open spec fn args_error_text(error: ArgsError) -> Seq<char> {
    match error {
        ArgsError::NoFiles => "no archive file given"@,
        ArgsError::PeerWithoutDiagram => "--peer needs --sequence-diagram"@,
        ArgsError::HtmlWithoutDiagram => "--html needs --sequence-diagram"@,
        ArgsError::ListPeersWithDiagram => {
            "--list-peers cannot be used with --sequence-diagram"@
        },
        ArgsError::CsvWithDiagram => "--csv cannot be used with --sequence-diagram"@,
        ArgsError::CsvWithListPeers => "--csv cannot be used with --list-peers"@,
        ArgsError::SeveralFiles => {
            "--sequence-diagram, --html and --csv only work with a single archive file"@
        },
    }
}

impl ArgsError {
    /// What is said of the options.
    pub fn to_text(&self) -> (r: &'static str)
        ensures
            r@ == args_error_text(*self),
    {
        match self {
            ArgsError::NoFiles => "no archive file given",
            ArgsError::PeerWithoutDiagram => "--peer needs --sequence-diagram",
            ArgsError::HtmlWithoutDiagram => "--html needs --sequence-diagram",
            ArgsError::ListPeersWithDiagram => {
                "--list-peers cannot be used with --sequence-diagram"
            },
            ArgsError::CsvWithDiagram => "--csv cannot be used with --sequence-diagram",
            ArgsError::CsvWithListPeers => "--csv cannot be used with --list-peers",
            ArgsError::SeveralFiles => {
                "--sequence-diagram, --html and --csv only work with a single archive file"
            },
        }
    }
}

/// A file is written only for a single archive, so that no archive overwrites what
/// another one gave.
pub proof fn law_files_are_written_for_a_single_archive(args: Args)
    requires
        chosen_mode(args) is Ok,
        args.html is Some || args.csv is Some,
    ensures
        args.files@.len() == 1,
        args.html is None || args.csv is None,
{
}

/// Options go together exactly if there is a file, the options for diagrams are given
/// with a diagram, at most one of diagram, table of peers and values is asked for, and
/// diagrams and values are asked for of one file. What is then made of the archive is
/// what was asked for, and its events where nothing was.
pub proof fn law_options_that_go_together(args: Args)
    ensures
        chosen_mode(args) is Ok <==> {
            &&& args.files@.len() > 0
            &&& args.peers@.len() > 0 ==> args.sequence_diagram
            &&& args.html is Some ==> args.sequence_diagram
            &&& !(args.list_peers && args.sequence_diagram)
            &&& !(args.csv is Some && args.sequence_diagram)
            &&& !(args.csv is Some && args.list_peers)
            &&& (args.sequence_diagram || args.csv is Some) ==> args.files@.len() == 1
        },
        chosen_mode(args) matches Ok(mode) ==> {
            &&& mode == Mode::Diagram <==> args.sequence_diagram
            &&& mode == Mode::Csv <==> args.csv is Some
            &&& mode == Mode::Peers <==> args.list_peers
            &&& mode == Mode::Events <==> !args.sequence_diagram && args.csv is None
                && !args.list_peers
        },
{
}

/// Each refusal holds of the options that it is given for.
pub proof fn law_refusals_are_deserved(args: Args)
    ensures
        chosen_mode(args) matches Err(error) ==> match error {
            ArgsError::NoFiles => args.files@.len() == 0,
            ArgsError::PeerWithoutDiagram => args.peers@.len() > 0 && !args.sequence_diagram,
            ArgsError::HtmlWithoutDiagram => args.html is Some && !args.sequence_diagram,
            ArgsError::ListPeersWithDiagram => args.list_peers && args.sequence_diagram,
            ArgsError::CsvWithDiagram => args.csv is Some && args.sequence_diagram,
            ArgsError::CsvWithListPeers => args.csv is Some && args.list_peers,
            ArgsError::SeveralFiles => args.files@.len() > 1,
        },
{
}

} // verus!

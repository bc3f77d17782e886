//! What the replayer prints and writes for an archive.
use crate::event::Event;
use crate::replayer::csv::{csv, csv_lines};
use crate::replayer::diagram::{chosen_messages, diagram, html_page, page, sequence_diagram};
use crate::replayer::file::{Archive, ArchiveView};
use crate::replayer::listing::{can_be_listed, listing, print_events};
use crate::replayer::options::{chosen_mode, Args, ArgsError, Mode};
use crate::replayer::peers::{is_ranking, no_messages, peer_table, peers_in, print_peers, Peer};
use crate::text::{push_lines, text_of_lines, texts};
use vstd::prelude::*;

verus! {

/// What there is to do for an archive.
#[derive(Debug, PartialEq, Eq)]
pub enum Output {
    /// Print lines.
    Lines(Vec<String>),
    /// Say why there is nothing to print.
    Remark(String),
    /// Write a text to a file.
    File { path: String, text: String },
}

/// An `Output` with its texts as character sequences.
pub enum OutputView {
    Lines(Seq<Seq<char>>),
    Remark(Seq<char>),
    File { path: Seq<char>, text: Seq<char> },
}

impl View for Output {
    type V = OutputView;

    open spec fn view(&self) -> OutputView {
        match *self {
            Output::Lines(lines) => OutputView::Lines(texts(lines@)),
            Output::Remark(text) => OutputView::Remark(text@),
            Output::File { path, text } => OutputView::File { path: path@, text: text@ },
        }
    }
}

/// Whether `lines` is the table of the peers in `events`.
pub open spec fn is_peer_table(events: Seq<Event>, lines: Seq<Seq<char>>) -> bool {
    exists|peers: Map<u64, Peer>, rows: Seq<(u64, Peer)>| #[trigger]
        peers_in(events, peers) && #[trigger] is_ranking(peers, rows) && lines == peer_table(rows)
}

/// Whether `output` is what the options ask for, in the given mode, of an archive.
pub open spec fn is_report(
    args: Args,
    mode: Mode,
    archive: ArchiveView,
    output: OutputView,
) -> bool {
    match mode {
        Mode::Events => output == OutputView::Lines(listing(archive)),
        Mode::Peers => if no_messages(archive.events) {
            output == OutputView::Remark("no peers found in archive"@)
        } else {
            output matches OutputView::Lines(lines) && is_peer_table(archive.events, lines)
        },
        Mode::Diagram => {
            let messages = chosen_messages(archive.events, args.peers@);
            if messages.len() == 0 {
                output == OutputView::Remark("no P2P messages found"@)
            } else {
                match args.html {
                    Some(path) => output == (OutputView::File {
                        path: path@,
                        text: page(diagram(messages)),
                    }),
                    None => output == OutputView::Lines(diagram(messages)),
                }
            }
        },
        Mode::Csv => match args.csv {
            Some(path) => output == (OutputView::File {
                path: path@,
                text: text_of_lines(csv(archive.events)),
            }),
            None => output == OutputView::Lines(csv(archive.events)),
        },
    }
}

/// What the options ask for, in the given mode, of an archive.
pub fn report(args: &Args, mode: Mode, archive: &Archive) -> (r: Output)
    requires
        mode == Mode::Events ==> can_be_listed(archive.events@),
    ensures
        is_report(*args, mode, archive@, r@),
{
    match mode {
        Mode::Events => Output::Lines(print_events(archive)),
        Mode::Peers => match print_peers(archive) {
            Ok(lines) => Output::Lines(lines),
            Err(text) => Output::Remark(text),
        },
        Mode::Diagram => match sequence_diagram(archive, &args.peers) {
            Ok(lines) => match &args.html {
                Some(path) => Output::File { path: path.clone(), text: html_page(&lines) },
                None => Output::Lines(lines),
            },
            Err(text) => Output::Remark(text),
        },
        Mode::Csv => {
            let lines = csv_lines(archive);
            match &args.csv {
                Some(path) => {
                    let mut text = String::new();
                    push_lines(&mut text, &lines);
                    assert(text@ =~= text_of_lines(csv(archive.events@)));
                    Output::File { path: path.clone(), text }
                },
                None => Output::Lines(lines),
            }
        },
    }
}

/// The line in front of what is printed for the archive at `path`: nothing for a
/// single archive.
pub open spec fn heading(args: Args, path: Seq<char>) -> Option<Seq<char>> {
    if args.files@.len() > 1 {
        Some("=== "@ + path + " ==="@)
    } else {
        None
    }
}

/// The line in front of what is printed for the archive at `path`.
pub fn heading_text(args: &Args, path: &str) -> (r: Option<String>)
    ensures
        match heading(*args, path@) {
            Some(line) => r matches Some(text) && text@ == line,
            None => r is None,
        },
{
    if args.files.len() > 1 {
        let mut text = String::new();
        text.append("=== ");
        text.append(path);
        text.append(" ===");
        assert(text@ =~= "=== "@ + path@ + " ==="@);
        Some(text)
    } else {
        None
    }
}

/// What is said where the archive at `path` could not be read.
pub fn read_error_text(path: &str, error: &str) -> (r: String)
    ensures
        r@ == "error reading "@ + path@ + ": "@ + error@,
{
    let mut text = String::new();
    text.append("error reading ");
    text.append(path);
    text.append(": ");
    text.append(error);
    assert(text@ =~= "error reading "@ + path@ + ": "@ + error@);
    text
}

/// What is said where the file at `path` could not be written.
pub fn write_error_text(path: &str, error: &str) -> (r: String)
    ensures
        r@ == "error writing "@ + path@ + ": "@ + error@,
{
    let mut text = String::new();
    text.append("error writing ");
    text.append(path);
    text.append(": ");
    text.append(error);
    assert(text@ =~= "error writing "@ + path@ + ": "@ + error@);
    text
}

/// What is said where the file at `path` was written.
pub fn wrote_text(path: &str) -> (r: String)
    ensures
        r@ == "wrote "@ + path@,
{
    let mut text = String::new();
    text.append("wrote ");
    text.append(path);
    assert(text@ =~= "wrote "@ + path@);
    text
}

/// Where a file is to be written, nothing is printed: the output for an archive is
/// either lines, or a remark, or a file, and with a file named it is never lines.
pub proof fn law_no_lines_where_a_file_is_written(
    args: Args,
    mode: Mode,
    archive: ArchiveView,
    output: OutputView,
)
    requires
        chosen_mode(args) == Ok::<Mode, ArgsError>(mode),
        args.html is Some || args.csv is Some,
        is_report(args, mode, archive, output),
    ensures
        !(output is Lines),
{
}

/// What is made of an archive in each mode: its listing; its table of peers, or the
/// remark that there are none; its diagram on the way that was asked for, or the remark
/// that there are no messages; or its messages as values, in the file that was named.
pub proof fn law_report_is_what_was_asked_for(args: Args, archive: ArchiveView, output: OutputView)
    ensures
        is_report(args, Mode::Events, archive, output) ==> output == OutputView::Lines(
            listing(archive),
        ),
        is_report(args, Mode::Peers, archive, output) && no_messages(archive.events) ==> output
            == OutputView::Remark("no peers found in archive"@),
        is_report(args, Mode::Peers, archive, output) && !no_messages(archive.events) ==> exists|
            peers: Map<u64, Peer>,
            rows: Seq<(u64, Peer)>,
        | #[trigger]
            peers_in(archive.events, peers) && #[trigger] is_ranking(peers, rows) && output
                == OutputView::Lines(peer_table(rows)),
        is_report(args, Mode::Diagram, archive, output) && chosen_messages(
            archive.events,
            args.peers@,
        ).len() == 0 ==> output == OutputView::Remark("no P2P messages found"@),
        is_report(args, Mode::Diagram, archive, output) && chosen_messages(
            archive.events,
            args.peers@,
        ).len() > 0 && args.html is None ==> output == OutputView::Lines(
            diagram(chosen_messages(archive.events, args.peers@)),
        ),
        forall|path: String|
            is_report(args, Mode::Diagram, archive, output) && chosen_messages(
                archive.events,
                args.peers@,
            ).len() > 0 && args.html == Some(path) ==> output == (OutputView::File {
                path: #[trigger] path@,
                text: page(diagram(chosen_messages(archive.events, args.peers@))),
            }),
        forall|path: String|
            is_report(args, Mode::Csv, archive, output) && args.csv == Some(path) ==> output == (
            OutputView::File { path: #[trigger] path@, text: text_of_lines(csv(archive.events)) }),
{
}

/// The view of an output is what is in it.
pub proof fn law_outputs_are_what_they_hold(lines: Vec<String>, path: String, text: String)
    ensures
        Output::Lines(lines)@ == OutputView::Lines(texts(lines@)),
        Output::Remark(text)@ == OutputView::Remark(text@),
        (Output::File { path, text })@ == (OutputView::File { path: path@, text: text@ }),
{
}

/// What is printed for an archive stands under its path exactly where there are
/// several.
pub proof fn law_several_archives_are_told_apart(args: Args, path: Seq<char>)
    ensures
        args.files@.len() >= 2 ==> heading(args, path) == Some("=== "@ + path + " ==="@),
        args.files@.len() < 2 ==> heading(args, path) is None,
{
}

} // verus!

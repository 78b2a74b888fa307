//! Exporting and importing sessions, and bundling diagnostics.

use vstd::prelude::*;

use crate::text::{occurs_at, optional_str, same_text, starts_with, texts};

verus! {

// ── export ───────────────────────────────────────────────────────────────────
/// How a session is written down.
#[derive(PartialEq, Eq, Structural, Clone, Copy)]
pub enum ExportFormat {
    Json,
    Yaml,
    Markdown,
}

/// Why a session cannot be exported or imported.
pub enum TransferError {
    /// The session cannot be read, for that reason.
    NotFound { id: String, reason: String },
    NoMessages,
    UnsupportedFormat(String),
    NostrNeedsJson,
    NostrWithOutput,
    NoNostrSupport,
}

impl TransferError {
    /// What to tell people.
    pub open spec fn text(self) -> Seq<char> {
        match self {
            TransferError::NotFound { id, reason } => "Session '"@ + id@
                + "' not found or failed to read: "@ + reason@,
            TransferError::NoMessages => "Session has no messages"@,
            TransferError::UnsupportedFormat(format) => "Unsupported format: "@ + format@,
            TransferError::NostrNeedsJson => "Nostr session sharing only supports --format json"@,
            TransferError::NostrWithOutput =>
                "Nostr session sharing cannot be combined with --output"@,
            TransferError::NoNostrSupport => "goose was not built with nostr support"@,
        }
    }

    /// What to tell people.
    pub fn message(&self) -> (message: String)
        ensures
            message@ == self.text(),
    {
        match self {
            TransferError::NotFound { id, reason } => {
                let mut message = "Session '".to_string();
                message.append(id.as_str());
                message.append("' not found or failed to read: ");
                message.append(reason.as_str());
                message
            },
            TransferError::NoMessages => "Session has no messages".to_string(),
            TransferError::UnsupportedFormat(format) => {
                let mut message = "Unsupported format: ".to_string();
                message.append(format.as_str());
                message
            },
            TransferError::NostrNeedsJson =>
                "Nostr session sharing only supports --format json".to_string(),
            TransferError::NostrWithOutput =>
                "Nostr session sharing cannot be combined with --output".to_string(),
            TransferError::NoNostrSupport => "goose was not built with nostr support".to_string(),
        }
    }
}

/// The session to export, which was read or could not be read for some reason.
pub fn session_to_export<S>(id: &str, read: Result<S, String>) -> (session: Result<
    S,
    TransferError,
>)
    ensures
        match read {
            Ok(s) => session == Ok::<S, TransferError>(s),
            Err(reason) => match session {
                Err(TransferError::NotFound { id: wanted, reason: why }) => wanted@ == id@ && why@
                    == reason@,
                _ => false,
            },
        },
{
    match read {
        Ok(session) => Ok(session),
        Err(reason) => Err(TransferError::NotFound { id: id.to_string(), reason }),
    }
}

/// How to write down a session: Markdown needs messages.
pub fn export_format(format: &str, has_messages: bool) -> (chosen: Result<
    ExportFormat,
    TransferError,
>)
    ensures
        match chosen {
            Ok(ExportFormat::Json) => format@ == "json"@,
            Ok(ExportFormat::Yaml) => format@ == "yaml"@,
            Ok(ExportFormat::Markdown) => format@ == "markdown"@ && has_messages,
            Err(TransferError::NoMessages) => format@ == "markdown"@ && !has_messages,
            Err(TransferError::UnsupportedFormat(f)) => {
                &&& f@ == format@
                &&& format@ != "json"@
                &&& format@ != "yaml"@
                &&& format@ != "markdown"@
            },
            Err(_) => false,
        },
{
    if same_text(format, "json") {
        Ok(ExportFormat::Json)
    } else if same_text(format, "yaml") {
        Ok(ExportFormat::Yaml)
    } else if same_text(format, "markdown") {
        if has_messages {
            Ok(ExportFormat::Markdown)
        } else {
            Err(TransferError::NoMessages)
        }
    } else {
        Err(TransferError::UnsupportedFormat(format.to_string()))
    }
}

/// Where an export goes.
pub enum ExportTarget {
    /// To Nostr relays.
    Publish,
    /// To that file; then print that line, or tell of the failure.
    File { path: String, then: String, failure: String },
    /// To the screen.
    Screen,
}

/// Where an export goes: to relays if that is asked for, else to a file if one is named, else to
/// the screen. Only JSON can be published, and not to a file as well.
pub fn export_target(
    format: ExportFormat,
    output_path: Option<&str>,
    nostr: bool,
    nostr_support: bool,
) -> (target: Result<ExportTarget, TransferError>)
    ensures
        match target {
            Ok(ExportTarget::Publish) => {
                &&& nostr
                &&& nostr_support
                &&& format == ExportFormat::Json
                &&& output_path is None
            },
            Ok(ExportTarget::File { path, then, failure }) => {
                &&& !nostr
                &&& optional_str(output_path) == Some(path@)
                &&& then@ == "Session exported to "@ + path@
                &&& failure@ == "Failed to write to output file: "@ + path@
            },
            Ok(ExportTarget::Screen) => !nostr && output_path is None,
            Err(TransferError::NoNostrSupport) => nostr && !nostr_support,
            Err(TransferError::NostrNeedsJson) => nostr && nostr_support && format
                != ExportFormat::Json,
            Err(TransferError::NostrWithOutput) => {
                &&& nostr
                &&& nostr_support
                &&& format == ExportFormat::Json
                &&& output_path is Some
            },
            Err(_) => false,
        },
{
    if nostr {
        if !nostr_support {
            return Err(TransferError::NoNostrSupport);
        }
        if format != ExportFormat::Json {
            return Err(TransferError::NostrNeedsJson);
        }
        if output_path.is_some() {
            return Err(TransferError::NostrWithOutput);
        }
        return Ok(ExportTarget::Publish);
    }
    match output_path {
        Some(path) => {
            let mut then = "Session exported to ".to_string();
            then.append(path);
            let mut failure = "Failed to write to output file: ".to_string();
            failure.append(path);
            Ok(ExportTarget::File { path: path.to_string(), then, failure })
        },
        None => Ok(ExportTarget::Screen),
    }
}

/// The lines that tell where a session was published.
pub open spec fn publication(relays: Seq<Seq<char>>, link: Seq<char>) -> Seq<Seq<char>> {
    seq!["Session published to Nostr relays:"@] + relays.map_values(
        |relay: Seq<char>| "- "@ + relay,
    ) + seq!["\nShare link:"@, link]
}

/// The lines that tell where a session was published.
pub fn publication_lines(relays: &Vec<String>, link: &str) -> (lines: Vec<String>)
    ensures
        texts(lines@) == publication(texts(relays@), link@),
{
    let mut lines: Vec<String> = Vec::new();
    lines.push("Session published to Nostr relays:".to_string());
    let ghost all = publication(texts(relays@), link@);
    let mut i: usize = 0;
    assert(texts(lines@) =~= all.take(1));
    while i < relays.len()
        invariant
            i <= relays@.len(),
            all == publication(texts(relays@), link@),
            texts(lines@) == all.take(i + 1),
        decreases relays@.len() - i,
    {
        let ghost before = texts(lines@);
        let mut line = "- ".to_string();
        line.append(relays[i].as_str());
        assert(all[i + 1] == line@);
        lines.push(line);
        assert(texts(lines@) =~= before.push(line@));
        i = i + 1;
        assert(texts(lines@) =~= all.take(i + 1));
    }
    let ghost before = texts(lines@);
    lines.push("\nShare link:".to_string());
    lines.push(link.to_string());
    assert(texts(lines@) =~= before + seq!["\nShare link:"@, link@]);
    assert(texts(lines@) =~= all);
    lines
}

// ── import ───────────────────────────────────────────────────────────────────
/// Where an import comes from.
pub enum ImportSource {
    /// The Nostr link that was given.
    Link,
    /// The file of that name; if that cannot be read, that is to be told.
    File { path: String, failure: String },
}

/// Whether an input is to be fetched from Nostr relays.
pub open spec fn is_link(input: Seq<char>, nostr: bool) -> bool {
    nostr || occurs_at(input, "goose://sessions/nostr"@, 0)
}

/// Where an import comes from: an input that is a Nostr link is one, even unasked.
pub fn import_source(input: &str, nostr: bool, nostr_support: bool) -> (source: Result<
    ImportSource,
    TransferError,
>)
    ensures
        match source {
            Ok(ImportSource::Link) => is_link(input@, nostr) && nostr_support,
            Ok(ImportSource::File { path, failure }) => {
                &&& !is_link(input@, nostr)
                &&& path@ == input@
                &&& failure@ == "Failed to read session import file: "@ + input@
            },
            Err(TransferError::NoNostrSupport) => is_link(input@, nostr) && !nostr_support,
            Err(_) => false,
        },
{
    if nostr || starts_with(input, "goose://sessions/nostr") {
        if nostr_support {
            Ok(ImportSource::Link)
        } else {
            Err(TransferError::NoNostrSupport)
        }
    } else {
        let mut failure = "Failed to read session import file: ".to_string();
        failure.append(input);
        Ok(ImportSource::File { path: input.to_string(), failure })
    }
}

/// Which program wrote a session.
pub enum ImportFormat {
    Goose,
    Codex,
    Pi,
    /// Another program, which brings its own name.
    Named(String),
}

/// The name of the program.
pub open spec fn program_name(format: ImportFormat) -> Seq<char> {
    match format {
        ImportFormat::Goose => "goose"@,
        ImportFormat::Codex => "Codex"@,
        ImportFormat::Pi => "Pi"@,
        ImportFormat::Named(name) => name@,
    }
}

/// The line that tells which program wrote a session.
pub fn format_line(format: &ImportFormat) -> (line: String)
    ensures
        line@ == "Detected format: "@ + program_name(*format),
{
    let mut line = "Detected format: ".to_string();
    match format {
        ImportFormat::Goose => {
            line.append("goose");
        },
        ImportFormat::Codex => {
            line.append("Codex");
        },
        ImportFormat::Pi => {
            line.append("Pi");
        },
        ImportFormat::Named(name) => {
            line.append(name.as_str());
        },
    }
    line
}

/// The lines that tell which session was imported.
pub fn imported_lines(id: &str, name: &str) -> (lines: Vec<String>)
    ensures
        texts(lines@) == seq!["Session imported:"@, id@ + " - "@ + name@],
{
    let mut lines: Vec<String> = Vec::new();
    lines.push("Session imported:".to_string());
    let mut line = id.to_string();
    line.append(" - ");
    line.append(name);
    lines.push(line);
    assert(texts(lines@) =~= seq!["Session imported:"@, id@ + " - "@ + name@]);
    lines
}

// ── diagnostics ──────────────────────────────────────────────────────────────
/// How a bundle of diagnostics is made.
pub struct DiagnosticsPlan {
    /// The line to print first.
    pub begin: String,
    /// What to tell if the bundle cannot be made.
    pub failure: String,
    /// The file that the bundle goes to.
    pub path: String,
    /// What to tell if the file cannot be created.
    pub create_failure: String,
    /// What to tell if the file cannot be written.
    pub write_failure: String,
    /// The line to print last.
    pub end: String,
}

/// The file that a bundle goes to.
pub open spec fn bundle_path(session_id: Seq<char>, output_path: Option<Seq<char>>) -> Seq<char> {
    match output_path {
        Some(path) => path,
        None => "diagnostics_"@ + session_id + ".zip"@,
    }
}

/// How the bundle of diagnostics of a session is made.
pub fn handle_diagnostics(session_id: &str, output_path: Option<&str>) -> (plan: DiagnosticsPlan)
    ensures
        plan.begin@ == "Generating diagnostics bundle for session '"@ + session_id@ + "'..."@,
        plan.failure@ == "Failed to write to generate diagnostics bundle for session '"@
            + session_id@ + "'"@,
        plan.path@ == bundle_path(session_id@, optional_str(output_path)),
        plan.create_failure@ == "Failed to create output file: "@ + plan.path@,
        plan.write_failure@ == "Failed to write diagnostics data"@,
        plan.end@ == "Diagnostics bundle saved to: "@ + plan.path@,
{
    let mut begin = "Generating diagnostics bundle for session '".to_string();
    begin.append(session_id);
    begin.append("'...");
    let mut failure = "Failed to write to generate diagnostics bundle for session '".to_string();
    failure.append(session_id);
    failure.append("'");
    let path = match output_path {
        Some(path) => path.to_string(),
        None => {
            let mut path = "diagnostics_".to_string();
            path.append(session_id);
            path.append(".zip");
            path
        },
    };
    let mut create_failure = "Failed to create output file: ".to_string();
    create_failure.append(path.as_str());
    let mut end = "Diagnostics bundle saved to: ".to_string();
    end.append(path.as_str());
    DiagnosticsPlan {
        begin,
        failure,
        path,
        create_failure,
        write_failure: "Failed to write diagnostics data".to_string(),
        end,
    }
}

/// The relays that a session was published to are told in their order, each on a line of its own,
/// and then the link to share.
pub proof fn every_relay_is_told(relays: Seq<Seq<char>>, link: Seq<char>, i: int)
    requires
        0 <= i < relays.len(),
    ensures
        publication(relays, link).len() == relays.len() + 3,
        publication(relays, link)[0] == "Session published to Nostr relays:"@,
        publication(relays, link)[i + 1] == "- "@ + relays[i],
        publication(relays, link)[relays.len() as int + 1] == "\nShare link:"@,
        publication(relays, link).last() == link,
{
}

/// An input is fetched from relays if that is asked for or if it begins as such a link does; any
/// other is a file, even one that holds such a link further on.
pub proof fn links_are_known_by_their_beginning(input: Seq<char>, rest: Seq<char>)
    ensures
        is_link(input, true),
        is_link("goose://sessions/nostr"@ + rest, false),
        is_link(input, false) ==> input.len() >= 22 && input.take(22) == "goose://sessions/nostr"@,
{
    reveal_strlit("goose://sessions/nostr");
    let start = "goose://sessions/nostr"@;
    let link = start + rest;
    assert(link.subrange(0, start.len() as int) =~= start);
    if is_link(input, false) {
        assert(input.take(22) =~= input.subrange(0, 22));
    }
}

/// A bundle goes to the file that was named, else to one that is named after the session.
pub proof fn bundles_are_named_after_sessions(session_id: Seq<char>, path: Seq<char>)
    ensures
        bundle_path(session_id, Some(path)) == path,
        bundle_path(session_id, None) == "diagnostics_"@ + session_id + ".zip"@,
{
}

/// Each program has its own name.
pub proof fn programs_have_their_names(name: String)
    ensures
        program_name(ImportFormat::Goose) == "goose"@,
        program_name(ImportFormat::Codex) == "Codex"@,
        program_name(ImportFormat::Pi) == "Pi"@,
        program_name(ImportFormat::Named(name)) == name@,
{
}

/// Why a transfer fails is told with what it is about.
pub proof fn transfer_errors_name_their_cause(id: String, reason: String)
    ensures
        (TransferError::NotFound { id, reason }).text() == "Session '"@ + id@
            + "' not found or failed to read: "@ + reason@,
        TransferError::UnsupportedFormat(reason).text() == "Unsupported format: "@ + reason@,
        TransferError::NoMessages.text() == "Session has no messages"@,
        TransferError::NostrNeedsJson.text()
            == "Nostr session sharing only supports --format json"@,
        TransferError::NostrWithOutput.text()
            == "Nostr session sharing cannot be combined with --output"@,
        TransferError::NoNostrSupport.text() == "goose was not built with nostr support"@,
{
}

// ── what the operations do ───────────────────────────────────────────────────
/// A session can be written down in three ways, of which Markdown needs messages; any other way is
/// refused by its name.
pub proof fn three_formats_are_known(
    format: &str,
    has_messages: bool,
    chosen: Result<ExportFormat, TransferError>,
)
    requires
        call_ensures(export_format, (format, has_messages), chosen),
    ensures
        format@ == "json"@ ==> chosen == Ok::<ExportFormat, TransferError>(ExportFormat::Json),
        format@ == "yaml"@ ==> chosen == Ok::<ExportFormat, TransferError>(ExportFormat::Yaml),
        format@ == "markdown"@ && has_messages ==> chosen == Ok::<ExportFormat, TransferError>(
            ExportFormat::Markdown,
        ),
        format@ == "markdown"@ && !has_messages ==> chosen is Err && chosen->Err_0 is NoMessages,
        format@ != "json"@ && format@ != "yaml"@ && format@ != "markdown"@ ==> match chosen {
            Err(TransferError::UnsupportedFormat(f)) => f@ == format@,
            _ => false,
        },
{
    reveal_strlit("json");
    reveal_strlit("yaml");
    reveal_strlit("markdown");
    assert("json"@[0] == 'j' && "yaml"@[0] == 'y' && "markdown"@[0] == 'm');
}

/// Only JSON is published, and not to a file as well; what is not published goes to the file that
/// is named, else to the screen.
pub proof fn exports_go_to_one_place(
    format: ExportFormat,
    output_path: Option<&str>,
    nostr: bool,
    nostr_support: bool,
    target: Result<ExportTarget, TransferError>,
)
    requires
        call_ensures(export_target, (format, output_path, nostr, nostr_support), target),
    ensures
        !nostr && output_path is None ==> target is Ok && target->Ok_0 is Screen,
        !nostr && output_path is Some ==> match target {
            Ok(ExportTarget::File { path, then, failure }) => path@ == output_path->0@ && then@
                == "Session exported to "@ + path@ && failure@
                == "Failed to write to output file: "@ + path@,
            _ => false,
        },
        nostr && nostr_support && format == ExportFormat::Json && output_path is None ==> target
            is Ok && target->Ok_0 is Publish,
        nostr && (!nostr_support || format != ExportFormat::Json || output_path is Some) ==> target
            is Err,
        nostr && !nostr_support ==> target->Err_0 is NoNostrSupport,
        nostr && nostr_support && format != ExportFormat::Json ==> target->Err_0 is NostrNeedsJson,
        nostr && nostr_support && format == ExportFormat::Json && output_path is Some
            ==> target->Err_0 is NostrWithOutput,
{
}

/// An input is fetched from relays if it begins as a link does or if that is asked for, and is
/// read as a file otherwise.
pub proof fn imports_come_from_links_or_files(
    input: &str,
    nostr: bool,
    nostr_support: bool,
    source: Result<ImportSource, TransferError>,
    rest: Seq<char>,
)
    requires
        call_ensures(import_source, (input, nostr, nostr_support), source),
    ensures
        (nostr || input@ == "goose://sessions/nostr"@ + rest) && nostr_support ==> source is Ok
            && source->Ok_0 is Link,
        (nostr || input@ == "goose://sessions/nostr"@ + rest) && !nostr_support ==> source is Err
            && source->Err_0 is NoNostrSupport,
        !nostr && !(input@.len() >= 22 && input@.take(22) == "goose://sessions/nostr"@)
            ==> match source {
            Ok(ImportSource::File { path, failure }) => path@ == input@ && failure@
                == "Failed to read session import file: "@ + input@,
            _ => false,
        },
{
    links_are_known_by_their_beginning(input@, rest);
}

/// Where a session could not be read, that is told with its id and the reason.
pub proof fn unread_sessions_are_told<S>(
    id: &str,
    read: Result<S, String>,
    session: Result<S, TransferError>,
)
    requires
        call_ensures(session_to_export::<S>, (id, read), session),
    ensures
        read is Ok ==> session is Ok && session->Ok_0 == read->Ok_0,
        read is Err ==> session is Err && session->Err_0.text() == "Session '"@ + id@
            + "' not found or failed to read: "@ + read->Err_0@,
{
}

/// What is printed about transfers names the program, the session, the relays and the link.
pub proof fn transfers_are_told(
    format: &ImportFormat,
    line: String,
    id: &str,
    name: &str,
    imported: Vec<String>,
    relays: &Vec<String>,
    link: &str,
    published: Vec<String>,
    i: int,
)
    requires
        call_ensures(format_line, (format,), line),
        call_ensures(imported_lines, (id, name), imported),
        call_ensures(publication_lines, (relays, link), published),
    ensures
        *format is Goose ==> line@ == "Detected format: "@ + "goose"@,
        *format is Codex ==> line@ == "Detected format: "@ + "Codex"@,
        *format is Pi ==> line@ == "Detected format: "@ + "Pi"@,
        imported@.len() == 2,
        imported@[1]@ == id@ + " - "@ + name@,
        published@.len() == relays@.len() + 3,
        0 <= i < relays@.len() ==> published@[i + 1]@ == "- "@ + relays@[i]@,
        published@.last()@ == link@,
{
    let all = texts(published@);
    let two = texts(imported@);
    assert(two.len() == imported@.len());
    assert(two[1] == imported@[1]@);
    assert(all.len() == published@.len());
    assert(all.last() == published@.last()@);
    if 0 <= i < relays@.len() {
        every_relay_is_told(texts(relays@), link@, i);
        assert(texts(relays@)[i] == relays@[i]@);
        assert(all[i + 1] == published@[i + 1]@);
    }
}

/// Diagnostics go to the file that was named, else to one that is named after the session, and the
/// last line tells which.
pub proof fn diagnostics_tell_their_file(
    session_id: &str,
    output_path: Option<&str>,
    plan: DiagnosticsPlan,
)
    requires
        call_ensures(handle_diagnostics, (session_id, output_path), plan),
    ensures
        output_path is Some ==> plan.path@ == output_path->0@,
        output_path is None ==> plan.path@ == "diagnostics_"@ + session_id@ + ".zip"@,
        plan.begin@ == "Generating diagnostics bundle for session '"@ + session_id@ + "'..."@,
        plan.end@ == "Diagnostics bundle saved to: "@ + plan.path@,
        plan.create_failure@ == "Failed to create output file: "@ + plan.path@,
{
}

} // verus!

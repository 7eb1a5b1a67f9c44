//! What a command line asks for. Paths are of a type of the caller's.

use vstd::prelude::*;

verus! {

/// A whole command line: an action chosen by flags, or a subcommand.
pub struct Cli<P> {
    pub version: bool,
    pub entries: bool,
    pub extract_file: bool,
    pub replace_file: bool,
    pub rom_index: usize,
    pub directory_index: Option<usize>,
    pub file_index: Option<usize>,
    pub type_regex: Option<String>,
    pub outfile: Option<P>,
    pub decompress: bool,
    pub decrypt: bool,
    pub pem_key: bool,
    pub no_duplicates: bool,
    pub json: bool,
    pub key_tree: bool,
    pub metrics: bool,
    pub verbose: bool,
    pub subfile: Option<P>,
    pub privkey: Option<P>,
    pub privkey_pass: Option<String>,
    pub file: Option<P>,
    pub command: Option<Command<P>>,
}

pub enum Command<P> {
    List(ListArgs<P>),
    Extract(ExtractArgs<P>),
    Replace(ReplaceArgs<P>),
    Sign(SignArgs<P>),
    Verify(VerifyArgs<P>),
    SearchKeys(SearchKeysArgs<P>),
}

pub struct ListArgs<P> {
    pub rom_index: usize,
    pub json: bool,
    pub no_duplicates: bool,
    pub key_tree: bool,
    pub metrics: bool,
    pub verbose: bool,
    pub file: P,
}

pub struct ExtractArgs<P> {
    pub rom_index: usize,
    pub directory_index: Option<usize>,
    pub file_index: Option<usize>,
    pub type_regex: Option<String>,
    pub outfile: Option<P>,
    pub decompress: bool,
    pub decrypt: bool,
    pub pem_key: bool,
    pub no_duplicates: bool,
    pub file: P,
}

pub struct ReplaceArgs<P> {
    pub rom_index: usize,
    pub directory_index: usize,
    pub file_index: usize,
    pub outfile: P,
    pub subfile: Option<P>,
    pub privkey: Option<P>,
    pub privkey_pass: Option<String>,
    pub file: P,
}

pub struct SignArgs<P> {
    pub rom_index: usize,
    pub directory_index: usize,
    pub file_index: usize,
    pub outfile: P,
    pub privkey: P,
    pub privkey_pass: Option<String>,
    pub file: P,
}

pub struct VerifyArgs<P> {
    pub rom_index: usize,
    pub json: bool,
    pub verbose: bool,
    pub file: P,
}

pub struct SearchKeysArgs<P> {
    pub rom_index: usize,
    pub json: bool,
    pub file: P,
}

/// What is to be done.
pub enum Action<P> {
    PrintVersion,
    PrintHelp,
    Run(Command<P>),
}

/// What a command line lacks.
#[derive(Copy, Clone, Debug, PartialEq, Eq, Structural)]
pub enum UsageError {
    ReplaceNeedsOutfile,
    ReplaceNeedsDirectoryIndex,
    ReplaceNeedsFileIndex,
}

/// One-line description of an error.
pub open spec fn usage_error_text(e: UsageError) -> &'static str {
    match e {
        UsageError::ReplaceNeedsOutfile => "-R/--replace-file requires -o/--outfile",
        UsageError::ReplaceNeedsDirectoryIndex =>
            "-R/--replace-file requires -d/--directory-index",
        UsageError::ReplaceNeedsFileIndex => "-R/--replace-file requires -e/--file-index",
    }
}

impl UsageError {
    pub fn text(self) -> (r: &'static str)
        ensures
            r == usage_error_text(self),
    {
        match self {
            UsageError::ReplaceNeedsOutfile => "-R/--replace-file requires -o/--outfile",
            UsageError::ReplaceNeedsDirectoryIndex =>
                "-R/--replace-file requires -d/--directory-index",
            UsageError::ReplaceNeedsFileIndex => "-R/--replace-file requires -e/--file-index",
        }
    }
}

/// What a command line asks for: the version before all else, then the
/// subcommand, then help where no file is given, then what the flags say, and
/// a listing when they say nothing.
pub open spec fn action_of<P>(cli: Cli<P>) -> Result<Action<P>, UsageError> {
    if cli.version {
        Ok(Action::PrintVersion)
    } else if cli.command is Some {
        Ok(Action::Run(cli.command->Some_0))
    } else if cli.file is None {
        Ok(Action::PrintHelp)
    } else if cli.extract_file {
        Ok(
            Action::Run(
                Command::Extract(
                    ExtractArgs {
                        rom_index: cli.rom_index,
                        directory_index: cli.directory_index,
                        file_index: cli.file_index,
                        type_regex: cli.type_regex,
                        outfile: cli.outfile,
                        decompress: cli.decompress,
                        decrypt: cli.decrypt,
                        pem_key: cli.pem_key,
                        no_duplicates: cli.no_duplicates,
                        file: cli.file->Some_0,
                    },
                ),
            ),
        )
    } else if cli.replace_file {
        if cli.outfile is None {
            Err(UsageError::ReplaceNeedsOutfile)
        } else if cli.directory_index is None {
            Err(UsageError::ReplaceNeedsDirectoryIndex)
        } else if cli.file_index is None {
            Err(UsageError::ReplaceNeedsFileIndex)
        } else {
            Ok(
                Action::Run(
                    Command::Replace(
                        ReplaceArgs {
                            rom_index: cli.rom_index,
                            directory_index: cli.directory_index->Some_0,
                            file_index: cli.file_index->Some_0,
                            outfile: cli.outfile->Some_0,
                            subfile: cli.subfile,
                            privkey: cli.privkey,
                            privkey_pass: cli.privkey_pass,
                            file: cli.file->Some_0,
                        },
                    ),
                ),
            )
        }
    } else {
        Ok(
            Action::Run(
                Command::List(
                    ListArgs {
                        rom_index: cli.rom_index,
                        json: cli.json,
                        no_duplicates: cli.no_duplicates,
                        key_tree: cli.key_tree,
                        metrics: cli.metrics,
                        verbose: cli.verbose,
                        file: cli.file->Some_0,
                    },
                ),
            ),
        )
    }
}

/// What a command line asks for.
pub fn dispatch<P>(cli: Cli<P>) -> (r: Result<Action<P>, UsageError>)
    ensures
        r == action_of(cli),
{
    if cli.version {
        return Ok(Action::PrintVersion);
    }
    if let Some(command) = cli.command {
        return Ok(Action::Run(command));
    }
    let file = match cli.file {
        Some(f) => f,
        None => {
            return Ok(Action::PrintHelp);
        },
    };
    if cli.extract_file {
        return Ok(
            Action::Run(
                Command::Extract(
                    ExtractArgs {
                        rom_index: cli.rom_index,
                        directory_index: cli.directory_index,
                        file_index: cli.file_index,
                        type_regex: cli.type_regex,
                        outfile: cli.outfile,
                        decompress: cli.decompress,
                        decrypt: cli.decrypt,
                        pem_key: cli.pem_key,
                        no_duplicates: cli.no_duplicates,
                        file,
                    },
                ),
            ),
        );
    }
    if cli.replace_file {
        let outfile = match cli.outfile {
            Some(o) => o,
            None => {
                return Err(UsageError::ReplaceNeedsOutfile);
            },
        };
        let directory_index: usize = match cli.directory_index {
            Some(d) => d,
            None => {
                return Err(UsageError::ReplaceNeedsDirectoryIndex);
            },
        };
        let file_index: usize = match cli.file_index {
            Some(e) => e,
            None => {
                return Err(UsageError::ReplaceNeedsFileIndex);
            },
        };
        return Ok(
            Action::Run(
                Command::Replace(
                    ReplaceArgs {
                        rom_index: cli.rom_index,
                        directory_index,
                        file_index,
                        outfile,
                        subfile: cli.subfile,
                        privkey: cli.privkey,
                        privkey_pass: cli.privkey_pass,
                        file,
                    },
                ),
            ),
        );
    }
    Ok(
        Action::Run(
            Command::List(
                ListArgs {
                    rom_index: cli.rom_index,
                    json: cli.json,
                    no_duplicates: cli.no_duplicates,
                    key_tree: cli.key_tree,
                    metrics: cli.metrics,
                    verbose: cli.verbose,
                    file,
                },
            ),
        ),
    )
}

/// Which entries are to be extracted.
pub enum ExtractMode {
    Single(EntrySelector),
    Multi,
}

/// Which one entry is to be extracted.
pub enum EntrySelector {
    Indices { dir: usize, file: usize },
    Regex(String),
}

/// How selectors contradict each other.
#[derive(Copy, Clone, Debug, PartialEq, Eq, Structural)]
pub enum SelectorError {
    /// One of two indices is missing.
    IndexWithoutOther,
    /// Both indices and a type are given.
    TypeWithIndices,
}

/// One-line description of an error.
pub open spec fn selector_error_text(e: SelectorError) -> &'static str {
    match e {
        SelectorError::IndexWithoutOther => "-d and -e must be supplied together",
        SelectorError::TypeWithIndices => "-T cannot be combined with -d/-e selectors",
    }
}

impl SelectorError {
    pub fn text(self) -> (r: &'static str)
        ensures
            r == selector_error_text(self),
    {
        match self {
            SelectorError::IndexWithoutOther => "-d and -e must be supplied together",
            SelectorError::TypeWithIndices => "-T cannot be combined with -d/-e selectors",
        }
    }
}

impl ExtractMode {
    /// Whether `r` is what the selectors come to.
    pub open spec fn selected(
        directory_index: Option<usize>,
        file_index: Option<usize>,
        type_regex: Option<String>,
        r: Result<ExtractMode, SelectorError>,
    ) -> bool {
        match (directory_index, file_index, type_regex) {
            (Some(dir), Some(file), None) => r == Ok::<ExtractMode, SelectorError>(
                ExtractMode::Single(EntrySelector::Indices { dir, file }),
            ),
            (Some(_), Some(_), Some(_)) => r == Err::<ExtractMode, SelectorError>(
                SelectorError::TypeWithIndices,
            ),
            (None, None, Some(pattern)) => r matches Ok(
                ExtractMode::Single(EntrySelector::Regex(own)),
            ) && own@ == pattern@,
            (None, None, None) => r == Ok::<ExtractMode, SelectorError>(ExtractMode::Multi),
            _ => r == Err::<ExtractMode, SelectorError>(SelectorError::IndexWithoutOther),
        }
    }

    /// Which entries the arguments ask for.
    pub fn from_args<P>(args: &ExtractArgs<P>) -> (r: Result<Self, SelectorError>)
        ensures
            Self::selected(args.directory_index, args.file_index, args.type_regex, r),
    {
        match (args.directory_index, args.file_index, &args.type_regex) {
            (Some(dir), Some(file), None) => Ok(
                ExtractMode::Single(EntrySelector::Indices { dir, file }),
            ),
            (Some(_), Some(_), Some(_)) => Err(SelectorError::TypeWithIndices),
            (None, None, Some(pattern)) => Ok(
                ExtractMode::Single(EntrySelector::Regex(pattern.clone())),
            ),
            (None, None, None) => Ok(ExtractMode::Multi),
            _ => Err(SelectorError::IndexWithoutOther),
        }
    }
}

/// The version comes before all else, and a subcommand before the flags and as it
/// was given. Without either, a command line that names no file asks for help.
pub proof fn lemma_what_comes_first<P>(cli: Cli<P>)
    ensures
        action_of(cli) == Ok::<Action<P>, UsageError>(Action::PrintVersion) <==> cli.version,
        !cli.version ==> (cli.command matches Some(command) ==> action_of(cli) == Ok::<
            Action<P>,
            UsageError,
        >(Action::Run(command))),
        action_of(cli) == Ok::<Action<P>, UsageError>(Action::PrintHelp) <==> !cli.version
            && cli.command is None && cli.file is None,
{
}

/// What the flags come to when a file is named and there is no subcommand. Each
/// option reaches the command that it is for. Extracting goes before replacing,
/// and a listing is what is left. Replacing needs a place to write to and both
/// indices, and says which one is missing first.
pub proof fn lemma_what_flags_ask_for<P>(cli: Cli<P>, file: P)
    requires
        !cli.version,
        cli.command is None,
        cli.file == Some(file),
    ensures
        cli.extract_file ==> {
            &&& action_of(cli) matches Ok(Action::Run(Command::Extract(args)))
            &&& args.rom_index == cli.rom_index
            &&& args.directory_index == cli.directory_index
            &&& args.file_index == cli.file_index
            &&& args.type_regex == cli.type_regex
            &&& args.outfile == cli.outfile
            &&& args.decompress == cli.decompress
            &&& args.decrypt == cli.decrypt
            &&& args.pem_key == cli.pem_key
            &&& args.no_duplicates == cli.no_duplicates
            &&& args.file == file
        },
        !cli.extract_file && cli.replace_file ==> {
            let complete = cli.outfile is Some && cli.directory_index is Some && cli.file_index
                is Some;
            &&& action_of(cli) is Ok <==> complete
            &&& complete ==> {
                &&& action_of(cli) matches Ok(Action::Run(Command::Replace(args)))
                &&& args.rom_index == cli.rom_index
                &&& Some(args.directory_index) == cli.directory_index
                &&& Some(args.file_index) == cli.file_index
                &&& Some(args.outfile) == cli.outfile
                &&& args.subfile == cli.subfile
                &&& args.privkey == cli.privkey
                &&& args.privkey_pass == cli.privkey_pass
                &&& args.file == file
            }
            &&& cli.outfile is None <==> action_of(cli) == Err::<Action<P>, UsageError>(
                UsageError::ReplaceNeedsOutfile,
            )
            &&& cli.outfile is Some && cli.directory_index is None <==> action_of(cli) == Err::<
                Action<P>,
                UsageError,
            >(UsageError::ReplaceNeedsDirectoryIndex)
        },
        !cli.extract_file && !cli.replace_file ==> {
            &&& action_of(cli) matches Ok(Action::Run(Command::List(args)))
            &&& args.rom_index == cli.rom_index
            &&& args.json == cli.json
            &&& args.no_duplicates == cli.no_duplicates
            &&& args.key_tree == cli.key_tree
            &&& args.metrics == cli.metrics
            &&& args.verbose == cli.verbose
            &&& args.file == file
        },
{
}

/// One entry is asked for by both indices, or by a type and no index; all entries
/// by none of the three. Everything else is refused.
pub proof fn lemma_what_selectors_ask_for(
    directory_index: Option<usize>,
    file_index: Option<usize>,
    type_regex: Option<String>,
    r: Result<ExtractMode, SelectorError>,
)
    requires
        ExtractMode::selected(directory_index, file_index, type_regex, r),
    ensures
        r is Ok <==> (directory_index is Some <==> file_index is Some) && !(directory_index is Some
            && type_regex is Some),
        r == Ok::<ExtractMode, SelectorError>(ExtractMode::Multi) <==> directory_index is None
            && file_index is None && type_regex is None,
        r matches Ok(ExtractMode::Single(EntrySelector::Indices { dir, file })) ==> directory_index
            == Some(dir) && file_index == Some(file),
        r matches Ok(ExtractMode::Single(EntrySelector::Regex(own))) ==> type_regex matches Some(
            pattern,
        ) && own@ == pattern@,
{
}

} // verus!

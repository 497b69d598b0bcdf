//! The commands of the tool, from their arguments to what they decide; the
//! caller carries out the reads and writes that the decisions name.
use crate::config::{apply_setting, config_text, Config, User};
use crate::error::KvcError;
use crate::hashing::{digest_of, generate_hash, is_digest};
use crate::locator::{
    get_file_path_relative_to_root, normalize, normalize_path, relative_to_root, strip_root,
    strip_root_prefix,
};
use crate::staging_area::{valid_digest_value, valid_path_key, StagingArea};
use crate::status::StatusCommand;
use vstd::prelude::*;

verus! {

/// Builds a value from its name.
pub trait FromString: Sized {
    fn from_string(s: String) -> Self;
}

/// A command that is set up from its arguments and the repository root.
pub trait ExecutableCommand: Sized {
    fn new(args: Vec<String>, root_folder: String) -> Result<Self, KvcError>;
}

/// The commands of the tool.
#[derive(Clone, Copy, Debug, PartialEq, Eq, Structural)]
pub enum Command {
    Init,
    Help,
    Config,
    Add,
    Rm,
    Status,
}

/// The command that a name selects; an unknown name selects `Help`.
pub open spec fn command_named(s: Seq<char>) -> Command {
    if s == "init"@ {
        Command::Init
    } else if s == "help"@ {
        Command::Help
    } else if s == "config"@ {
        Command::Config
    } else if s == "add"@ {
        Command::Add
    } else if s == "rm"@ {
        Command::Rm
    } else if s == "status"@ {
        Command::Status
    } else {
        Command::Help
    }
}

impl FromString for Command {
    fn from_string(s: String) -> (r: Command)
        ensures
            r == command_named(s@),
    {
        if s == "init".to_owned() {
            Command::Init
        } else if s == "help".to_owned() {
            Command::Help
        } else if s == "config".to_owned() {
            Command::Config
        } else if s == "add".to_owned() {
            Command::Add
        } else if s == "rm".to_owned() {
            Command::Rm
        } else if s == "status".to_owned() {
            Command::Status
        } else {
            Command::Help
        }
    }
}

/// Whether a command may run outside a repository.
pub open spec fn runs_anywhere(command: Command) -> bool {
    command == Command::Init || command == Command::Help
}

/// A command set up and ready to run.
pub enum Executable {
    Init(InitCommand),
    Config(ConfigCommand),
    Help(HelpCommand),
    Add(AddCommand),
    Rm(RmCommand),
    Status(StatusCommand),
}

/// `e` is `command` set up with `args` for the repository at `root`.
pub open spec fn set_up_for(e: Executable, command: Command, args: Seq<String>, root: Seq<char>) -> bool {
    match e {
        Executable::Init(_) => command == Command::Init,
        Executable::Config(c) => command == Command::Config && c.config_name == config_named(
            if args.len() > 0 {
                args[0]@
            } else {
                Seq::<char>::empty()
            },
        ) && c.config_value@ == if args.len() > 1 {
            args[1]@
        } else {
            Seq::<char>::empty()
        },
        Executable::Help(c) => command == Command::Help && c.command_name@ == if args.len() > 0 {
            args[0]@
        } else {
            Seq::<char>::empty()
        },
        Executable::Add(c) => command == Command::Add && c.path@ == args[0]@ && c.root_path@ == root,
        Executable::Rm(c) => command == Command::Rm && c.path@ == args[0]@ && c.root_path@ == root,
        Executable::Status(c) => command == Command::Status && c.root() == root,
    }
}

/// A command line: the command and its arguments.
pub struct Cli {
    pub command: Command,
    pub args: Vec<String>,
}

impl Cli {
    /// Sets up `command` with its arguments. Fails with `MissingPath` for
    /// `Add` and `Rm` without an argument.
    pub fn get_executable(command: Command, args: Vec<String>, root_folder: String) -> (r: Result<
        Executable,
        KvcError,
    >)
        ensures
            (command == Command::Add || command == Command::Rm) && args@.len() == 0 ==> r
                == Err::<Executable, KvcError>(KvcError::MissingPath),
            !((command == Command::Add || command == Command::Rm) && args@.len() == 0) ==> r is Ok,
            r matches Ok(e) ==> set_up_for(e, command, args@, root_folder@),
    {
        match command {
            Command::Init => match InitCommand::new(args, root_folder) {
                Ok(c) => Ok(Executable::Init(c)),
                Err(e) => Err(e),
            },
            Command::Config => match ConfigCommand::new(args, root_folder) {
                Ok(c) => Ok(Executable::Config(c)),
                Err(e) => Err(e),
            },
            Command::Help => match HelpCommand::new(args, root_folder) {
                Ok(c) => Ok(Executable::Help(c)),
                Err(e) => Err(e),
            },
            Command::Add => match AddCommand::new(args, root_folder) {
                Ok(c) => Ok(Executable::Add(c)),
                Err(e) => Err(e),
            },
            Command::Rm => match RmCommand::new(args, root_folder) {
                Ok(c) => Ok(Executable::Rm(c)),
                Err(e) => Err(e),
            },
            Command::Status => match StatusCommand::new(args, root_folder) {
                Ok(c) => Ok(Executable::Status(c)),
                Err(e) => Err(e),
            },
        }
    }

    /// Whether `command` may run where no repository was found: only `Init`
    /// and `Help` may.
    pub fn runs_outside_repository(command: Command) -> (r: bool)
        ensures
            r == runs_anywhere(command),
    {
        match command {
            Command::Init | Command::Help => true,
            _ => false,
        }
    }

    /// Decides how to run `command`, given whether a repository was found
    /// and its root. Fails with `NotARepository` for a command that needs
    /// one when none was found, and otherwise as `get_executable` does.
    pub fn execute(command: Command, args: Vec<String>, is_kvc_repo: bool, root_folder: String) -> (r:
        Result<Executable, KvcError>)
        ensures
            !runs_anywhere(command) && !is_kvc_repo ==> r == Err::<Executable, KvcError>(
                KvcError::NotARepository,
            ),
            runs_anywhere(command) || is_kvc_repo ==> (r is Ok <==> !((command == Command::Add
                || command == Command::Rm) && args@.len() == 0)),
            runs_anywhere(command) || is_kvc_repo ==> ((command == Command::Add || command
                == Command::Rm) && args@.len() == 0 ==> r == Err::<Executable, KvcError>(
                KvcError::MissingPath)),
            r matches Ok(e) ==> set_up_for(e, command, args@, root_folder@),
    {
        if !Self::runs_outside_repository(command) && !is_kvc_repo {
            return Err(KvcError::NotARepository);
        }
        Self::get_executable(command, args, root_folder)
    }
}

/// Whether a path argument may be acted on: it exists and, with `.` and
/// `..` resolved, lies inside the working directory `cur_dir` (both
/// absolute).
pub fn validate_path(path_exists: bool, cur_dir: &str, path: &str) -> (r: bool)
    ensures
        r == (path_exists && strip_root(normalize(cur_dir@), normalize(path@)) is Some),
{
    if !path_exists {
        return false;
    }
    let dir = normalize_path(cur_dir);
    let target = normalize_path(path);
    strip_root_prefix(dir.as_str(), target.as_str()).is_some()
}

/// What adding one file decided: the digest under which its content is
/// stored and the ledger text that now persists the index.
pub struct AddedFile {
    pub digest: String,
    pub ledger: String,
}

/// Stages files: stores their content and records its digest in the index.
pub struct AddCommand {
    pub root_path: String,
    pub path: String,
}

impl ExecutableCommand for AddCommand {
    /// Fails with `MissingPath` when no path is given.
    fn new(args: Vec<String>, root_folder: String) -> (r: Result<AddCommand, KvcError>)
        ensures
            args@.len() == 0 ==> r == Err::<AddCommand, KvcError>(KvcError::MissingPath),
            args@.len() > 0 ==> (r matches Ok(c) && c.path@ == args@[0]@ && c.root_path@
                == root_folder@),
    {
        if args.len() == 0 {
            return Err(KvcError::MissingPath);
        }
        Ok(AddCommand { path: args[0].clone(), root_path: root_folder })
    }
}

impl AddCommand {
    /// Stages `path`, given relative to the working directory `cur_dir`, at
    /// `file_hash`. Returns the ledger text to persist. Fails with
    /// `InvalidPath`, changing nothing, when `cur_dir` is outside the
    /// repository or the pair cannot be held by the ledger.
    pub fn add_file_to_index(
        &self,
        index: &mut StagingArea,
        cur_dir: &str,
        path: &str,
        file_hash: String,
    ) -> (r: Result<String, KvcError>)
        requires
            old(index).wf(),
        ensures
            final(index).wf(),
            final(index).root() == old(index).root(),
            match relative_to_root(self.root_path@, cur_dir@, path@) {
                Some(rel) => if valid_path_key(rel) && valid_digest_value(file_hash@) {
                    r matches Ok(text) && final(index)@ == old(index)@.insert(rel, file_hash@)
                        && text@ == final(index).ledger() && (old(index)@.get(rel) == Some(
                        file_hash@,
                    ) ==> final(index).entries() == old(index).entries())
                } else {
                    r == Err::<String, KvcError>(KvcError::InvalidPath) && final(index)@ == old(
                        index,
                    )@
                },
                None => r == Err::<String, KvcError>(KvcError::InvalidPath) && final(index)@ == old(
                    index,
                )@,
            },
    {
        let relative = match get_file_path_relative_to_root(self.root_path.as_str(), cur_dir, path) {
            Ok(rel) => rel,
            Err(e) => {
                return Err(e);
            },
        };
        index.add(relative, file_hash)
    }

    /// Stages the file at `path`, given relative to `cur_dir`, whose content
    /// is `file_content`: its digest is computed and recorded in the index.
    /// The caller stores the content under the returned digest (see
    /// `ObjectStore::put`) and persists the returned ledger text.
    pub fn process_file(
        &self,
        index: &mut StagingArea,
        cur_dir: &str,
        path: &str,
        file_content: &[u8],
    ) -> (r: Result<AddedFile, KvcError>)
        requires
            old(index).wf(),
        ensures
            final(index).wf(),
            final(index).root() == old(index).root(),
            match relative_to_root(self.root_path@, cur_dir@, path@) {
                Some(rel) => if valid_path_key(rel) {
                    r matches Ok(added) && added.digest@ == digest_of(file_content@) && is_digest(
                        added.digest@,
                    ) && final(index)@ == old(index)@.insert(rel, digest_of(file_content@))
                        && added.ledger@ == final(index).ledger() && (old(index)@.get(rel) == Some(
                        digest_of(file_content@),
                    ) ==> final(index).entries() == old(index).entries())
                } else {
                    r == Err::<AddedFile, KvcError>(KvcError::InvalidPath) && final(index)@ == old(
                        index,
                    )@
                },
                None => r == Err::<AddedFile, KvcError>(KvcError::InvalidPath) && final(index)@
                    == old(index)@,
            },
    {
        let file_hash = generate_hash(file_content);
        let digest = file_hash.clone();
        proof {
            assert forall|i: int| 0 <= i < file_hash@.len() implies file_hash@[i] != '\n'
                && file_hash@[i] != '|' by {
                assert(crate::hashing::is_hex_char(file_hash@[i]));
            }
        }
        match self.add_file_to_index(index, cur_dir, path, file_hash) {
            Ok(ledger) => Ok(AddedFile { digest, ledger }),
            Err(e) => Err(e),
        }
    }
}

/// Adding the same file again, with unchanged content, after it was added
/// leaves the index entries, and so the ledger text, exactly as the first add
/// left them; storing its object again changes nothing either (see
/// `lemma_put_idempotent`).
pub proof fn lemma_repeated_add(
    before: Map<Seq<char>, Seq<char>>,
    after_first: StagingArea,
    rel: Seq<char>,
    content: Seq<u8>,
)
    requires
        after_first@ == before.insert(rel, digest_of(content)),
    ensures
        after_first@.get(rel) == Some(digest_of(content)),
        after_first@.insert(rel, digest_of(content)) == after_first@,
{
    assert(after_first@.insert(rel, digest_of(content)) =~= after_first@);
}

/// Unstages files.
pub struct RmCommand {
    pub path: String,
    pub root_path: String,
}

impl ExecutableCommand for RmCommand {
    /// Fails with `MissingPath` when no path is given.
    fn new(args: Vec<String>, root_folder: String) -> (r: Result<RmCommand, KvcError>)
        ensures
            args@.len() == 0 ==> r == Err::<RmCommand, KvcError>(KvcError::MissingPath),
            args@.len() > 0 ==> (r matches Ok(c) && c.path@ == args@[0]@ && c.root_path@
                == root_folder@),
    {
        if args.len() == 0 {
            return Err(KvcError::MissingPath);
        }
        Ok(RmCommand { path: args[0].clone(), root_path: root_folder })
    }
}

impl RmCommand {
    /// Unstages `path`, given relative to the working directory `cur_dir`.
    /// Returns the ledger text to persist. Fails with `InvalidPath`,
    /// changing nothing, when `cur_dir` is outside the repository.
    pub fn process_file(&self, index: &mut StagingArea, cur_dir: &str, path: &str) -> (r: Result<
        String,
        KvcError,
    >)
        requires
            old(index).wf(),
        ensures
            final(index).wf(),
            final(index).root() == old(index).root(),
            match relative_to_root(self.root_path@, cur_dir@, path@) {
                Some(rel) => r matches Ok(text) && final(index)@ == old(index)@.remove(rel)
                    && text@ == final(index).ledger(),
                None => r == Err::<String, KvcError>(KvcError::InvalidPath) && final(index)@ == old(
                    index,
                )@,
            },
    {
        let relative = match get_file_path_relative_to_root(self.root_path.as_str(), cur_dir, path) {
            Ok(rel) => rel,
            Err(e) => {
                return Err(e);
            },
        };
        Ok(index.remove(relative.as_str()))
    }
}

/// Creates a repository in the working directory.
pub struct InitCommand;

impl ExecutableCommand for InitCommand {
    fn new(args: Vec<String>, root_folder: String) -> (r: Result<InitCommand, KvcError>)
        ensures
            r is Ok,
    {
        Ok(InitCommand)
    }
}

impl InitCommand {
    /// The configuration a new repository starts with: base branch
    /// `master`, no user.
    pub fn default_config() -> (r: Config)
        ensures
            r@ == ("master"@, Seq::<char>::empty(), Seq::<char>::empty()),
    {
        Config {
            base_branch: "master".to_owned(),
            user: User { name: String::new(), email: String::new() },
        }
    }
}

/// Which help text was asked for.
#[derive(Clone, Copy, Debug, PartialEq, Eq, Structural)]
pub enum HelpTopic {
    Init,
    Config,
    /// A name that has no help text.
    Unmapped,
}

/// Shows the help text of a command.
pub struct HelpCommand {
    pub command_name: String,
}

impl ExecutableCommand for HelpCommand {
    /// The first argument names the command; none names no command.
    fn new(args: Vec<String>, root_folder: String) -> (r: Result<HelpCommand, KvcError>)
        ensures
            r matches Ok(c) && c.command_name@ == if args@.len() > 0 {
                args@[0]@
            } else {
                Seq::<char>::empty()
            },
    {
        if args.len() == 0 {
            return Ok(HelpCommand { command_name: String::new() });
        }
        Ok(HelpCommand { command_name: args[0].clone() })
    }
}

impl HelpCommand {
    /// The help text to show: `init` and `config` have one.
    pub fn topic(&self) -> (r: HelpTopic)
        ensures
            r == if self.command_name@ == "init"@ {
                HelpTopic::Init
            } else if self.command_name@ == "config"@ {
                HelpTopic::Config
            } else {
                HelpTopic::Unmapped
            },
    {
        if self.command_name == "init".to_owned() {
            HelpTopic::Init
        } else if self.command_name == "config".to_owned() {
            HelpTopic::Config
        } else {
            HelpTopic::Unmapped
        }
    }
}

/// The configuration entries that the config command reads or sets.
#[derive(Clone, Copy, Debug, PartialEq, Eq, Structural)]
pub enum ConfigName {
    List,
    BaseBranch,
    UserName,
    UserEmail,
    Invalid,
}

/// The entry that a name selects: no name lists them all.
pub open spec fn config_named(s: Seq<char>) -> ConfigName {
    if s == "base_branch"@ {
        ConfigName::BaseBranch
    } else if s == "user.name"@ {
        ConfigName::UserName
    } else if s == "user.email"@ {
        ConfigName::UserEmail
    } else if s.len() == 0 {
        ConfigName::List
    } else {
        ConfigName::Invalid
    }
}

impl FromString for ConfigName {
    fn from_string(s: String) -> (r: ConfigName)
        ensures
            r == config_named(s@),
    {
        if s == "base_branch".to_owned() {
            ConfigName::BaseBranch
        } else if s == "user.name".to_owned() {
            ConfigName::UserName
        } else if s == "user.email".to_owned() {
            ConfigName::UserEmail
        } else if s.unicode_len() == 0 {
            ConfigName::List
        } else {
            ConfigName::Invalid
        }
    }
}

/// The name of a configuration entry as written in the file.
pub open spec fn config_name_text(n: ConfigName) -> Seq<char> {
    match n {
        ConfigName::List => "list"@,
        ConfigName::BaseBranch => "base_branch"@,
        ConfigName::UserName => "user.name"@,
        ConfigName::UserEmail => "user.email"@,
        ConfigName::Invalid => "invalid"@,
    }
}

impl ConfigName {
    /// The entry's name as written in the file.
    pub fn name_text(&self) -> (r: String)
        ensures
            r@ == config_name_text(*self),
    {
        match self {
            ConfigName::List => "list".to_owned(),
            ConfigName::BaseBranch => "base_branch".to_owned(),
            ConfigName::UserName => "user.name".to_owned(),
            ConfigName::UserEmail => "user.email".to_owned(),
            ConfigName::Invalid => "invalid".to_owned(),
        }
    }
}

/// What the config command does with the configuration it read.
pub enum ConfigOutcome {
    /// Show this text.
    Show(String),
    /// Write this configuration back.
    Update(Config),
}

/// Reads or sets one configuration entry.
pub struct ConfigCommand {
    pub config_name: ConfigName,
    pub config_value: String,
}

impl ExecutableCommand for ConfigCommand {
    /// The first argument names the entry and the second, if any, is the new
    /// value.
    fn new(args: Vec<String>, root_folder: String) -> (r: Result<ConfigCommand, KvcError>)
        ensures
            r matches Ok(c) && c.config_name == config_named(
                if args@.len() > 0 {
                    args@[0]@
                } else {
                    Seq::<char>::empty()
                },
            ) && c.config_value@ == if args@.len() > 1 {
                args@[1]@
            } else {
                Seq::<char>::empty()
            },
    {
        let name = if args.len() > 0 {
            args[0].clone()
        } else {
            String::new()
        };
        let value = if args.len() > 1 {
            args[1].clone()
        } else {
            String::new()
        };
        Ok(ConfigCommand { config_name: ConfigName::from_string(name), config_value: value })
    }
}

impl ConfigCommand {
    /// Fails with `UnknownConfig` for a name that selects no entry.
    pub fn check(&self) -> (r: Result<(), KvcError>)
        ensures
            self.config_name == ConfigName::Invalid ==> r == Err::<(), KvcError>(
                KvcError::UnknownConfig,
            ),
            self.config_name != ConfigName::Invalid ==> r is Ok,
    {
        match self.config_name {
            ConfigName::Invalid => Err(KvcError::UnknownConfig),
            _ => Ok(()),
        }
    }

    /// With no value, shows the selected entry (the whole file for `List`,
    /// nothing for another name); with a value, sets the entry and asks to
    /// write the configuration back.
    pub fn print_or_update(&self, config: Config) -> (r: ConfigOutcome)
        ensures
            self.config_value@.len() == 0 ==> (r matches ConfigOutcome::Show(text) && text@
                == match self.config_name {
                ConfigName::List => config_text(config@),
                ConfigName::BaseBranch => config@.0,
                ConfigName::UserEmail => config@.1,
                ConfigName::UserName => config@.2,
                ConfigName::Invalid => Seq::<char>::empty(),
            }),
            self.config_value@.len() > 0 ==> (r matches ConfigOutcome::Update(c) && c@
                == match self.config_name {
                ConfigName::BaseBranch | ConfigName::UserName | ConfigName::UserEmail => apply_setting(
                    config@,
                    config_name_text(self.config_name),
                    self.config_value@,
                ),
                _ => config@,
            }),
    {
        if self.config_value.unicode_len() == 0 {
            let text = match self.config_name {
                ConfigName::List => config.to_file_text(),
                ConfigName::BaseBranch => config.base_branch.clone(),
                ConfigName::UserEmail => config.user.email.clone(),
                ConfigName::UserName => config.user.name.clone(),
                ConfigName::Invalid => String::new(),
            };
            return ConfigOutcome::Show(text);
        }
        let mut new_config = config.clone();
        proof {
            reveal_strlit("base_branch");
            reveal_strlit("user.name");
            reveal_strlit("user.email");
            assert("base_branch"@.len() == 11);
            assert("user.name"@.len() == 9);
            assert("user.email"@.len() == 10);
        }
        match self.config_name {
            ConfigName::BaseBranch => new_config.base_branch = self.config_value.clone(),
            ConfigName::UserName => new_config.user.name = self.config_value.clone(),
            ConfigName::UserEmail => new_config.user.email = self.config_value.clone(),
            _ => {},
        }
        ConfigOutcome::Update(new_config)
    }
}

} // verus!

use kvc::{
    validate_path, AddCommand, Cli, Command, Config, ConfigCommand, ConfigName, ConfigOutcome,
    Executable, ExecutableCommand, FromString, HelpCommand, HelpTopic, InitCommand, KvcError,
    RmCommand, StagingArea,
};

fn args(items: &[&str]) -> Vec<String> {
    items.iter().map(|s| s.to_string()).collect()
}

#[test]
fn command_names() {
    assert_eq!(Command::from_string("init".to_string()), Command::Init);
    assert_eq!(Command::from_string("help".to_string()), Command::Help);
    assert_eq!(Command::from_string("config".to_string()), Command::Config);
    assert_eq!(Command::from_string("add".to_string()), Command::Add);
    assert_eq!(Command::from_string("rm".to_string()), Command::Rm);
    assert_eq!(Command::from_string("status".to_string()), Command::Status);
    assert_eq!(Command::from_string("commit".to_string()), Command::Help);
}

#[test]
fn only_init_and_help_run_outside_a_repository() {
    assert!(Cli::runs_outside_repository(Command::Init));
    assert!(Cli::runs_outside_repository(Command::Help));
    assert!(!Cli::runs_outside_repository(Command::Status));
    assert!(matches!(
        Cli::execute(Command::Status, Vec::new(), false, String::new()),
        Err(KvcError::NotARepository)
    ));
    assert!(matches!(
        Cli::execute(Command::Init, Vec::new(), false, String::new()),
        Ok(Executable::Init(_))
    ));
    assert!(matches!(
        Cli::execute(Command::Status, Vec::new(), true, "/r".to_string()),
        Ok(Executable::Status(_))
    ));
}

#[test]
fn add_and_rm_need_a_path() {
    assert!(matches!(
        Cli::get_executable(Command::Add, Vec::new(), "/r".to_string()),
        Err(KvcError::MissingPath)
    ));
    assert!(matches!(
        RmCommand::new(Vec::new(), "/r".to_string()),
        Err(KvcError::MissingPath)
    ));
    let add = AddCommand::new(args(&["f.txt"]), "/r".to_string()).ok().unwrap();
    assert_eq!(add.path, "f.txt");
    assert_eq!(add.root_path, "/r");
    assert!(matches!(
        Cli::get_executable(Command::Rm, args(&["f.txt"]), "/r".to_string()),
        Ok(Executable::Rm(_))
    ));
}

#[test]
fn rm_unstages_relative_path() {
    let rm = RmCommand::new(args(&["b.txt"]), "/r".to_string()).ok().unwrap();
    let mut index = StagingArea::open("/r".to_string(), "a/b.txt||1\nc||2").ok().unwrap();
    assert_eq!(rm.process_file(&mut index, "/r/a", "b.txt"), Ok("c||2".to_string()));
    assert_eq!(index.get("a/b.txt"), None);
    assert_eq!(rm.process_file(&mut index, "/q", "b.txt"), Err(KvcError::InvalidPath));
}

#[test]
fn add_refuses_paths_outside_repository() {
    let add = AddCommand::new(args(&["b.txt"]), "/r".to_string()).ok().unwrap();
    let mut index = StagingArea::open("/r".to_string(), "").ok().unwrap();
    assert!(matches!(
        add.process_file(&mut index, "/elsewhere", "b.txt", b"hi"),
        Err(KvcError::InvalidPath)
    ));
    assert_eq!(index.save(), "");
    assert_eq!(
        add.add_file_to_index(&mut index, "/r", "b.txt", "abc".to_string()),
        Ok("b.txt||abc".to_string())
    );
}

#[test]
fn path_validation() {
    assert!(validate_path(true, "/r", "/r/a.txt"));
    assert!(!validate_path(false, "/r", "/r/a.txt"));
    assert!(!validate_path(true, "/r", "/q/a.txt"));
    assert!(!validate_path(true, "/r", "/r/../x"));
    assert!(validate_path(true, "/r/", "/r/./sub/../a.txt"));
}

#[test]
fn help_topics() {
    let help = HelpCommand::new(args(&["init"]), String::new()).ok().unwrap();
    assert_eq!(help.topic(), HelpTopic::Init);
    let help = HelpCommand::new(args(&["config"]), String::new()).ok().unwrap();
    assert_eq!(help.topic(), HelpTopic::Config);
    let help = HelpCommand::new(Vec::new(), String::new()).ok().unwrap();
    assert_eq!(help.command_name, "");
    assert_eq!(help.topic(), HelpTopic::Unmapped);
}

#[test]
fn config_parsing() {
    let c = Config::read_from_file("base_branch=main\nuser.email=a@b.c\nuser.name=Ann").ok().unwrap();
    assert_eq!(c.base_branch, "main");
    assert_eq!(c.user.email, "a@b.c");
    assert_eq!(c.user.name, "Ann");
    let c = Config::read_from_file("other=1\nuser.name=x=y").ok().unwrap();
    assert_eq!(c.user.name, "x");
    assert_eq!(c.base_branch, "");
    assert!(matches!(Config::read_from_file(""), Err(KvcError::EmptyConfig)));
    assert!(matches!(Config::read_from_file("base_branch"), Err(KvcError::MalformedConfig)));
}

#[test]
fn config_text_round() {
    let c = InitCommand::default_config();
    assert_eq!(c.to_file_text(), "base_branch=master\nuser.email=\nuser.name=");
    let back = Config::read_from_file(&c.to_file_text()).ok().unwrap();
    assert_eq!(back.base_branch, "master");
    let fresh = Config::new();
    assert_eq!(fresh.base_branch, "");
    let copy = c.clone();
    assert_eq!(copy.base_branch, "master");
}

#[test]
fn config_names() {
    assert_eq!(ConfigName::from_string("base_branch".to_string()), ConfigName::BaseBranch);
    assert_eq!(ConfigName::from_string("user.name".to_string()), ConfigName::UserName);
    assert_eq!(ConfigName::from_string("user.email".to_string()), ConfigName::UserEmail);
    assert_eq!(ConfigName::from_string(String::new()), ConfigName::List);
    assert_eq!(ConfigName::from_string("color".to_string()), ConfigName::Invalid);
    assert_eq!(ConfigName::UserEmail.name_text(), "user.email");
}

#[test]
fn config_command_outcomes() {
    let config = Config::read_from_file("base_branch=main\nuser.email=e\nuser.name=n").ok().unwrap();
    let show = ConfigCommand::new(args(&["user.name"]), String::new()).ok().unwrap();
    assert!(show.check().is_ok());
    match show.print_or_update(config.clone()) {
        ConfigOutcome::Show(text) => assert_eq!(text, "n"),
        ConfigOutcome::Update(_) => panic!("expected a value to show"),
    }
    let list = ConfigCommand::new(Vec::new(), String::new()).ok().unwrap();
    match list.print_or_update(config.clone()) {
        ConfigOutcome::Show(text) => assert_eq!(text, "base_branch=main\nuser.email=e\nuser.name=n"),
        ConfigOutcome::Update(_) => panic!("expected the listing"),
    }
    let set = ConfigCommand::new(args(&["base_branch", "dev"]), String::new()).ok().unwrap();
    match set.print_or_update(config.clone()) {
        ConfigOutcome::Update(c) => {
            assert_eq!(c.base_branch, "dev");
            assert_eq!(c.user.name, "n");
        }
        ConfigOutcome::Show(_) => panic!("expected an update"),
    }
    let bad = ConfigCommand::new(args(&["color"]), String::new()).ok().unwrap();
    assert_eq!(bad.check(), Err(KvcError::UnknownConfig));
}

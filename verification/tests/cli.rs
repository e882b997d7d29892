use clap::{Arg, ArgAction, ArgMatches, Command};
use mget::cli::{Cli, Commands, DownloadArgs, LinkChoice, RepoTypeChoice, SourceChoice};
use mget::source::RepoType;

fn option(name: &'static str) -> Arg {
    Arg::new(name).long(name)
}

fn list(name: &'static str) -> Arg {
    option(name).action(ArgAction::Append)
}

fn command() -> Command {
    let download = Command::new("download")
        .alias("dl")
        .arg(Arg::new("repo").required_unless_present_any(["model", "dataset"]))
        .arg(option("model").conflicts_with_all(["repo", "dataset"]))
        .arg(
            option("dataset")
                .visible_alias("datasets")
                .conflicts_with_all(["repo", "model"]),
        )
        .arg(option("repo-type").value_parser(["model", "dataset"]).default_value("model"))
        .arg(
            option("source")
                .short('s')
                .value_parser(["auto", "hf", "hf-mirror", "modelscope"])
                .default_value("auto"),
        )
        .arg(option("output").short('o'))
        .arg(option("threads").short('t'))
        .arg(option("revision").default_value("main"))
        .arg(list("file"))
        .arg(list("include"))
        .arg(list("exclude"))
        .arg(option("link").value_parser(["hf", "modelscope", "all"]))
        .arg(option("interactive").action(ArgAction::SetTrue))
        .arg(option("hf-token"))
        .arg(option("modelscope-token"))
        .arg(option("modelscope-id"));
    Command::new("mget").subcommand(Command::new("ping")).subcommand(download)
}

fn text(matches: &ArgMatches, name: &str) -> Option<String> {
    matches.get_one::<String>(name).cloned()
}

fn texts(matches: &ArgMatches, name: &str) -> Vec<String> {
    matches.get_many::<String>(name).map(|values| values.cloned().collect()).unwrap_or_default()
}

fn parse_from(line: &[&str]) -> Cli {
    let matches = command().get_matches_from(line);
    let (name, found) = matches.subcommand().unwrap();
    if name == "ping" {
        return Cli { command: Commands::Ping };
    }
    Cli {
        command: Commands::Download(Box::new(DownloadArgs {
            repo: text(found, "repo"),
            model_id: text(found, "model"),
            dataset_id: text(found, "dataset"),
            repo_type: match text(found, "repo-type").as_deref() {
                Some("dataset") => RepoTypeChoice::Dataset,
                _ => RepoTypeChoice::Model,
            },
            source: match text(found, "source").as_deref() {
                Some("hf") => SourceChoice::Hf,
                Some("hf-mirror") => SourceChoice::HfMirror,
                Some("modelscope") => SourceChoice::Modelscope,
                _ => SourceChoice::Auto,
            },
            output: text(found, "output"),
            threads: text(found, "threads").map(|number| number.parse().unwrap()),
            revision: text(found, "revision").unwrap(),
            files: texts(found, "file"),
            includes: texts(found, "include"),
            excludes: texts(found, "exclude"),
            link: text(found, "link").map(|choice| match choice.as_str() {
                "hf" => LinkChoice::Hf,
                "modelscope" => LinkChoice::Modelscope,
                _ => LinkChoice::All,
            }),
            interactive: found.get_flag("interactive"),
            hf_token: text(found, "hf-token"),
            modelscope_token: text(found, "modelscope-token"),
            modelscope_id: text(found, "modelscope-id"),
        })),
    }
}

#[test]
fn parses_download_alias_and_options() {
    let cli = parse_from(&[
        "mget",
        "dl",
        "meta-llama/Meta-Llama-3-8B-Instruct",
        "--source",
        "hf-mirror",
        "-t",
        "16",
        "--file",
        "README.md",
    ]);
    let Commands::Download(args) = cli.command else {
        panic!("expected download command");
    };
    assert_eq!(
        args.repo_id().as_deref(),
        Some("meta-llama/Meta-Llama-3-8B-Instruct")
    );
    assert_eq!(args.repo_type(), RepoType::Model);
    assert_eq!(args.source, SourceChoice::HfMirror);
    assert_eq!(args.threads, Some(16));
    assert_eq!(args.files, vec!["README.md"]);
}

#[test]
fn parses_modelscope_dataset_forms() {
    let positional = parse_from(&[
        "mget",
        "download",
        "modelscope/test-dataset",
        "--repo-type",
        "dataset",
    ]);
    let Commands::Download(args) = positional.command else {
        panic!("expected download command");
    };
    assert_eq!(args.repo_id().as_deref(), Some("modelscope/test-dataset"));
    assert_eq!(args.repo_type(), RepoType::Dataset);

    let explicit = parse_from(&["mget", "download", "--datasets", "owner/data"]);
    let Commands::Download(args) = explicit.command else {
        panic!("expected download command");
    };
    assert_eq!(args.repo_id().as_deref(), Some("owner/data"));
    assert_eq!(args.repo_type(), RepoType::Dataset);
}

#[test]
fn parses_ping_command() {
    let cli = parse_from(&["mget", "ping"]);
    assert!(matches!(cli.command, Commands::Ping));
}

#[test]
fn model_option_comes_before_the_chosen_type() {
    let cli = parse_from(&["mget", "download", "--model", "a/b", "--repo-type", "dataset"]);
    let Commands::Download(args) = cli.command else {
        panic!("expected download command");
    };
    assert_eq!(args.repo_id().as_deref(), Some("a/b"));
    assert_eq!(args.repo_type(), RepoType::Model);
    assert_eq!(RepoType::from(RepoTypeChoice::Dataset), RepoType::Dataset);
}

#[test]
fn labels_and_directories_of_repositories() {
    assert_eq!(RepoType::Model.label(), "model");
    assert_eq!(RepoType::Dataset.label(), "dataset");
    assert_eq!(RepoType::Model.cache_segment(), "models");
    assert_eq!(RepoType::Dataset.cache_segment(), "datasets");
}

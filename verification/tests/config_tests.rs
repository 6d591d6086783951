use simple_ci_cache::blob::{hash_and_create, BlobWrite};
use simple_ci_cache::config::{
    candidate_config_paths, filter_env_vars, is_contained, parse_env, Config, ExecutionEnvironment,
    Project,
};
use simple_ci_cache::error::CacheError;
use simple_ci_cache::fingerprint::{EnvEntry, InputFile};
use simple_ci_cache::folder::CacheFolder;
use simple_ci_cache::hex::hex_encode;
use simple_ci_cache::orchestrator::{
    build_record, command_identity, destinations_of, is_blank_command, join_command,
};
use simple_ci_cache::record::CachedCommand;

fn bytes(s: &str) -> Vec<u8> {
    s.as_bytes().to_vec()
}

fn entry(name: &str, value: &str) -> EnvEntry {
    EnvEntry { name: bytes(name), value: bytes(value) }
}

fn input(path: &str, content: &str) -> InputFile {
    InputFile { path: bytes(path), content: bytes(content) }
}

fn project(name: &str, root: &str, inputs: &[&str], deps: &[&str]) -> Project {
    Project {
        root: bytes(root),
        envs: Vec::new(),
        inputs: inputs.iter().map(|s| bytes(s)).collect(),
        outputs: Vec::new(),
        name: bytes(name),
        depends_on: deps.iter().map(|s| bytes(s)).collect(),
    }
}

#[test]
fn fingerprint_is_deterministic() {
    let cmd = bytes("cc -O2 main.c");
    let env = vec![entry("CC", "gcc")];
    let a = command_identity(&cmd, vec![input("/src/main.c", "int main;")], &env, &vec![bytes("CC")]);
    let b = command_identity(&cmd, vec![input("/src/main.c", "int main;")], &env, &vec![bytes("CC")]);
    assert_eq!(a.1, b.1);
    assert_eq!(a.2, b.2);
    assert_eq!(a.2, hex_encode(&a.1));
}

#[test]
fn fingerprint_ignores_input_file_order() {
    let cmd = bytes("build");
    let files1 = vec![input("/a", "one"), input("/b", "two")];
    let files2 = vec![input("/b", "two"), input("/a", "one")];
    let a = command_identity(&cmd, files1, &Vec::new(), &Vec::new());
    let b = command_identity(&cmd, files2, &Vec::new(), &Vec::new());
    assert_eq!(a.1, b.1);
}

#[test]
fn fingerprint_changes_with_command_text() {
    let a = command_identity(&bytes("echo hello"), Vec::new(), &Vec::new(), &Vec::new());
    let b = command_identity(&bytes("echo hellp"), Vec::new(), &Vec::new(), &Vec::new());
    assert_ne!(a.1, b.1);
}

#[test]
fn fingerprint_changes_with_allow_listed_env_value() {
    let allow = vec![bytes("CC")];
    let a = command_identity(&bytes("build"), Vec::new(), &vec![entry("CC", "gcc")], &allow);
    let b = command_identity(&bytes("build"), Vec::new(), &vec![entry("CC", "clang")], &allow);
    assert_ne!(a.1, b.1);
}

#[test]
fn fingerprint_ignores_other_env_values() {
    let allow = vec![bytes("CC")];
    let env1 = vec![entry("CC", "gcc"), entry("HOME", "/home/u1")];
    let env2 = vec![entry("CC", "gcc"), entry("HOME", "/home/u2")];
    let a = command_identity(&bytes("build"), Vec::new(), &env1, &allow);
    let b = command_identity(&bytes("build"), Vec::new(), &env2, &allow);
    assert_eq!(a.1, b.1);
}

#[test]
fn fingerprint_changes_when_an_input_file_changes() {
    let cmd = bytes("build");
    let a = command_identity(&cmd, vec![input("/a", "version one")], &Vec::new(), &Vec::new());
    let b = command_identity(&cmd, vec![input("/a", "version two")], &Vec::new(), &Vec::new());
    assert_ne!(a.1, b.1);
}

#[test]
fn filter_env_keeps_allow_listed_entries_in_order() {
    let env = vec![entry("A", "1"), entry("B", "2"), entry("C", "3")];
    let allow = vec![bytes("C"), bytes("A")];
    let filtered = filter_env_vars(&env, &allow);
    assert_eq!(filtered.len(), 2);
    assert_eq!(filtered[0].name, bytes("A"));
    assert_eq!(filtered[0].value, bytes("1"));
    assert_eq!(filtered[1].name, bytes("C"));
    assert_eq!(filtered[1].value, bytes("3"));
}

#[test]
fn parse_env_reads_the_three_settings() {
    let env = vec![
        entry("CACHE_CONFIG_FILE", "ci.yml"),
        entry("CACHE_DIR", "/var/cache"),
        entry("CACHE_RO", "true"),
    ];
    let cfg = parse_env(&env);
    assert_eq!(cfg.config_file_name, bytes("ci.yml"));
    assert_eq!(cfg.cache_dir, Some(bytes("/var/cache")));
    assert!(cfg.read_only);

    let defaults = parse_env(&Vec::new());
    assert_eq!(defaults.config_file_name, bytes("cache.yml"));
    assert_eq!(defaults.cache_dir, None);
    assert!(!defaults.read_only);

    let not_true = parse_env(&vec![entry("CACHE_RO", "yes")]);
    assert!(!not_true.read_only);
}

#[test]
fn default_config_values() {
    let cfg = Config::default();
    assert!(matches!(cfg.exec_env, ExecutionEnvironment::BASH));
    assert_eq!(cfg.cache_dir, bytes(".cache"));
    assert_eq!(cfg.ttl, 7);
    assert!(cfg.projects.is_empty());
    assert_eq!(cfg.exec_env.shell_name(), bytes("bash"));
    assert_eq!(ExecutionEnvironment::SHELL.shell_name(), bytes("shell"));
}

#[test]
fn is_contained_compares_whole_components() {
    assert!(is_contained(&bytes("/home/user"), &bytes("/home/user/documents/report.txt")));
    assert!(is_contained(&bytes("/home"), &bytes("/home/user")));
    assert!(is_contained(&bytes("/home"), &bytes("/home")));
    assert!(!is_contained(&bytes("/home/us"), &bytes("/home/user")));
    assert!(!is_contained(&bytes("/home/user"), &bytes("/home")));
    assert!(is_contained(&bytes("/"), &bytes("/home")));
}

#[test]
fn project_lookup_finds_first_declaration() {
    let cfg = Config {
        exec_env: ExecutionEnvironment::BASH,
        projects: vec![project("web", "web", &[], &[]), project("api", "api", &[], &[])],
        cache_dir: bytes(".cache"),
        ttl: 7,
    };
    assert_eq!(cfg.get_project(&bytes("api")), Some(1));
    assert_eq!(cfg.get_project(&bytes("web")), Some(0));
    assert_eq!(cfg.get_project(&bytes("db")), None);
    let roots = vec![bytes("/repo/web"), bytes("/repo/api")];
    assert_eq!(cfg.get_project_for_cwd(&roots, &bytes("/repo/api/src")), Some(1));
    assert_eq!(cfg.get_project_for_cwd(&roots, &bytes("/elsewhere")), None);
}

#[test]
fn dependency_globs_union_across_the_graph() {
    let cfg = Config {
        exec_env: ExecutionEnvironment::BASH,
        projects: vec![
            project("app", "app", &["app/src/**", "shared/**"], &["lib"]),
            project("lib", "lib", &["lib/src/**", "shared/**"], &[]),
        ],
        cache_dir: bytes(".cache"),
        ttl: 7,
    };
    let globs = cfg.get_all_depenend_file_globs(0);
    assert!(globs.contains(&bytes("app/src/**")));
    assert!(globs.contains(&bytes("lib/src/**")));
    assert!(globs.contains(&bytes("shared/**")));
}

#[test]
fn config_candidates_walk_up_to_the_root() {
    let candidates = candidate_config_paths(&bytes("/a/b"), &bytes("cache.yml"));
    assert_eq!(
        candidates,
        vec![bytes("/a/b/cache.yml"), bytes("/a/cache.yml"), bytes("/cache.yml")],
    );
}

#[test]
fn command_text_joins_with_spaces_and_blankness_is_detected() {
    assert_eq!(join_command(&vec![bytes("echo"), bytes("hello")]), bytes("echo hello"));
    assert_eq!(join_command(&Vec::new()), bytes(""));
    assert!(is_blank_command(&bytes("   \t\n")));
    assert!(is_blank_command(&bytes("")));
    assert!(!is_blank_command(&bytes(" echo ")));
}

#[test]
fn empty_destination_list_is_malformed() {
    assert!(matches!(destinations_of(Vec::new()), Err(CacheError::MalformedData)));
    let ne = destinations_of(vec![bytes("/out/a")]).unwrap();
    assert_eq!(ne.len(), 1);
    assert_eq!(*ne.first(), bytes("/out/a"));
}

#[test]
fn built_record_binds_the_invocation() {
    let record = build_record(
        &bytes("echo hello"),
        vec![entry("CC", "gcc")],
        &bytes("aabb"),
        &bytes("ccdd"),
        Vec::new(),
    );
    assert_eq!(record.command_line, bytes("echo hello"));
    assert_eq!(record.hash, bytes("aabb"));
    assert_eq!(record.log, bytes("ccdd"));
    assert_eq!(record.created, record.last_accessed);
    assert_eq!(record.env.len(), 1);
    assert_eq!(record.env[0].name, bytes("CC"));
}

#[test]
fn scenario_echo_hello_replays_without_a_shell() {
    let cmd = join_command(&vec![bytes("echo"), bytes("hello")]);
    let no_env: Vec<EnvEntry> = Vec::new();
    let no_allow: Vec<Vec<u8>> = Vec::new();

    // first run: the fingerprint misses, the shell runs, stdout is captured
    let (_, fp1, hex1) = command_identity(&cmd, Vec::new(), &no_env, &no_allow);
    let captured = bytes("hello\n");
    let (log_hash, plan) = hash_and_create(false, &captured);
    let (data, payload) = match plan.unwrap() {
        BlobWrite::Write { data, payload, .. } => (data, payload),
        BlobWrite::AlreadyCached => panic!("first store must write"),
    };
    let record = build_record(&cmd, Vec::new(), &hex1, &hex_encode(&log_hash), Vec::new());

    // second, identical run: the fingerprint is the same, the record is found,
    // and the stored stdout replays byte for byte
    let (_, fp2, hex2) = command_identity(&cmd, Vec::new(), &no_env, &no_allow);
    assert_eq!(fp1, fp2);
    let folder = CacheFolder::new(bytes("/cache"));
    let found: CachedCommand = folder.get_cashed_command(&hex2, true, true, Some(record)).unwrap();
    assert_eq!(found.log, hex_encode(&log_hash));
    let blob = simple_ci_cache::blob::CachedFile { path: Vec::new(), data };
    let replayed = blob.restore_to_stdout(&payload).unwrap();
    assert_eq!(replayed, captured);
}

#[test]
fn dependency_globs_collapse_consecutive_duplicates() {
    let cfg = Config {
        exec_env: ExecutionEnvironment::BASH,
        projects: vec![project("solo", "solo", &["x/**", "x/**", "y/**"], &[])],
        cache_dir: bytes(".cache"),
        ttl: 7,
    };
    assert_eq!(cfg.get_all_depenend_file_globs(0), vec![bytes("x/**"), bytes("y/**")]);
}

use sciproj::cli::check_distribution::{
    distribution_valid, tool_status, RequiredTool, ToolStatus, ToolStatuses,
};
use std::collections::BTreeMap;

use sciproj::cli::config::{default_inc_paths, ProjectConfig, SourceConfig, Target};
use sciproj::cli::data::{ConfigFormat, DataFormat};
use sciproj::cli::dist_env::{
    add_exec_extension, binary_locations, dist_binary_path, join_path, scinc_home_paths,
    DefaultPaths, DistEnvBuilder, ToolLocation,
};
use sciproj::cli::game_data::{check_walk, files_to_import, ImportError, ManifestCheck};
use sciproj::cli::project_root::{find_project_root, ProjectRootError};

#[test]
fn tool_status_from_test_run() {
    assert_eq!(tool_status(None), ToolStatus::Unavailable);
    assert_eq!(tool_status(Some(true)), ToolStatus::Valid);
    assert_eq!(tool_status(Some(false)), ToolStatus::Invalid);
}

#[test]
fn distribution_valid_needs_every_required_tool() {
    let statuses = ToolStatuses {
        ffmpeg: ToolStatus::Valid,
        espeak: ToolStatus::Invalid,
        scinc: ToolStatus::Unavailable,
    };
    assert!(distribution_valid(&vec![RequiredTool::Ffmpeg], statuses, false));
    assert!(!distribution_valid(&vec![RequiredTool::Ffmpeg, RequiredTool::EspeakNg], statuses, false));
    assert!(!distribution_valid(&vec![RequiredTool::Scinc], statuses, false));
    assert!(distribution_valid(&vec![], statuses, false));
    assert!(!distribution_valid(&vec![], statuses, true));
}

#[test]
fn paths_join_with_one_separator() {
    assert_eq!(join_path("libexec/scidub", "bin"), "libexec/scidub/bin");
    assert_eq!(join_path("root/", "bin"), "root/bin");
    assert_eq!(join_path("", "bin"), "bin");
}

#[test]
fn exec_extension_is_added_when_the_platform_has_one() {
    assert_eq!(add_exec_extension("ffmpeg", Some("exe")), "ffmpeg.exe");
    assert_eq!(add_exec_extension("ffmpeg", None), "ffmpeg");
    assert_eq!(add_exec_extension("", Some("exe")), "");
}

#[test]
fn binary_locations_prefer_the_distribution() {
    let paths = Some(DefaultPaths {
        ext_root_dir: "/opt/scidub/libexec/scidub".to_string(),
        ext_bin_dir: "bin".to_string(),
    });
    assert_eq!(
        dist_binary_path(paths.as_ref().unwrap(), "scinc"),
        "/opt/scidub/libexec/scidub/bin/scinc"
    );
    let found = binary_locations(&paths, "scinc", true, Some("/usr/bin/scinc".to_string()));
    assert_eq!(found.len(), 2);
    match &found[0] {
        ToolLocation::Dist { root, bin } => {
            assert_eq!(root, "/opt/scidub/libexec/scidub");
            assert_eq!(bin, "bin/scinc");
        }
        _ => panic!("the distribution comes first"),
    }
    assert!(matches!(&found[1], ToolLocation::SystemPath { path } if path == "/usr/bin/scinc"));
    assert_eq!(binary_locations(&paths, "scinc", false, None).len(), 0);
    assert_eq!(binary_locations(&None, "scinc", true, Some("/x".to_string())).len(), 1);
}

#[test]
fn formats_from_extensions() {
    assert_eq!(DataFormat::from_ext("json"), Some(DataFormat::Json));
    assert_eq!(DataFormat::from_ext("csv"), Some(DataFormat::Csv));
    assert_eq!(DataFormat::from_ext("ndjson"), Some(DataFormat::NdJson));
    assert_eq!(DataFormat::from_ext("JSON"), None);
    assert_eq!(DataFormat::for_file(Some("txt"), DataFormat::Csv), DataFormat::Csv);
    assert_eq!(DataFormat::for_file(None, DataFormat::NdJson), DataFormat::NdJson);
    assert_eq!(ConfigFormat::from_ext("yml"), Some(ConfigFormat::Yaml));
    assert_eq!(ConfigFormat::from_ext("yaml"), Some(ConfigFormat::Yaml));
    assert_eq!(ConfigFormat::from_ext("toml"), Some(ConfigFormat::Toml));
    assert_eq!(ConfigFormat::from_ext("ini"), None);
    assert_eq!(ConfigFormat::for_file(Some("json"), ConfigFormat::Toml), ConfigFormat::Json);
}

#[test]
fn manifest_check_sorts_files() {
    let mut check = ManifestCheck::new(vec!["a.map".to_string(), "b.scr".to_string(), "c.pic".to_string()]);
    assert!(check.take("a.map".to_string()));
    check.record("a.map".to_string(), true);
    assert!(!check.take("extra.txt".to_string()));
    assert!(check.take("c.pic".to_string()));
    check.record("c.pic".to_string(), false);
    assert!(!check.take("a.map".to_string()));
    let result = check.finish();
    assert_eq!(result.matches, vec!["a.map".to_string()]);
    assert_eq!(result.mismatches, vec!["c.pic".to_string()]);
    assert_eq!(result.missing, vec!["b.scr".to_string()]);
    assert_eq!(result.additional_files(), &vec!["extra.txt".to_string(), "a.map".to_string()]);
    let err = result.validate_complete().err().unwrap();
    assert_eq!(err.missing, vec!["b.scr".to_string()]);
    assert_eq!(err.mismatches, vec!["c.pic".to_string()]);
}

#[test]
fn import_needs_an_empty_game_dir_and_a_complete_source() {
    assert!(matches!(files_to_import(false, None, vec![]), Err(ImportError::GameDirNotEmpty)));
    let all = vec!["x".to_string(), "y".to_string()];
    assert_eq!(files_to_import(true, None, all.clone()).ok().unwrap(), all);
    let mut check = ManifestCheck::new(vec!["x".to_string()]);
    assert!(check.take("x".to_string()));
    check.record("x".to_string(), true);
    assert!(!check.take("y".to_string()));
    let ok = check.finish();
    assert!(ok.validate_complete().is_ok());
    assert_eq!(files_to_import(true, Some(ok), all.clone()).ok().unwrap(), vec!["x".to_string()]);
    let missing = ManifestCheck::new(vec!["z".to_string()]).finish();
    assert!(matches!(files_to_import(true, Some(missing), all), Err(ImportError::MissingFiles(m)) if m == vec!["z".to_string()]));
}

#[test]
fn builder_captures_each_variable_once() {
    let b = DistEnvBuilder::new().set_use_system_path(true);
    assert!(b.use_system_path);
    let b = b.add_env_var("SCINC_HOME", "/opt/scinc").ok().unwrap();
    let err = DistEnvBuilder::new()
        .add_env_var("A", "1")
        .ok()
        .unwrap()
        .add_env_var("A", "2")
        .err()
        .unwrap();
    assert_eq!(err.var, "A");
    let env = b.build_from_root(None);
    assert!(env.use_system_path);
    assert!(env.paths.is_none());
    assert_eq!(env.get_env_var("SCINC_HOME"), Some("/opt/scinc"));
    assert_eq!(env.get_env_var("HOME"), None);
}

#[test]
fn scinc_home_holds_binary_and_includes() {
    let (bin, inc_dir) = scinc_home_paths("/opt/scinc", ".exe");
    assert_eq!(bin, "/opt/scinc/bin/scinc.exe");
    assert_eq!(inc_dir, "/opt/scinc/include");
    let (bin, _) = scinc_home_paths("/opt/scinc/", "");
    assert_eq!(bin, "/opt/scinc/bin/scinc");
}

#[test]
fn project_config_getters() {
    let mut targets = BTreeMap::new();
    targets.insert("en".to_string(), Target { line_mapping: "map.csv".to_string() });
    let config = ProjectConfig {
        voice_script_config: Some("book.yaml".to_string()),
        game_files: None,
        audio_files_root: Some("audio".to_string()),
        build_dir: None,
        script_url: Some("https://example.org/script".to_string()),
        source: SourceConfig {
            source_dir: Some("src".to_string()),
            global_includes: vec!["game.sh".to_string()],
            include_paths: default_inc_paths(),
        },
        targets,
    };
    assert_eq!(config.voice_script_config(), Some("book.yaml"));
    assert_eq!(config.game_files(), None);
    assert_eq!(config.audio_files_root(), Some("audio"));
    assert_eq!(config.build_dir(), None);
    assert_eq!(config.script_url(), Some("https://example.org/script"));
    assert_eq!(config.targets()["en"].line_mapping(), "map.csv");
    assert_eq!(config.source_config().source_dir(), Some("src"));
    assert_eq!(config.source_config().global_includes(), vec!["game.sh"]);
    assert_eq!(config.source_config().include_paths(), vec![""]);
    let empty = SourceConfig::default();
    assert!(empty.source_dir().is_none());
    assert!(empty.include_paths().is_empty());
}

#[test]
fn a_whole_walk_sorts_every_file() {
    let manifest = vec!["a".to_string(), "b".to_string(), "c".to_string(), "d".to_string()];
    let walked = vec![
        ("c".to_string(), false),
        ("x".to_string(), true),
        ("a".to_string(), true),
        ("y".to_string(), false),
    ];
    let r = check_walk(manifest, walked);
    assert_eq!(r.matches, vec!["a".to_string()]);
    assert_eq!(r.mismatches, vec!["c".to_string()]);
    assert_eq!(r.missing, vec!["b".to_string(), "d".to_string()]);
    assert_eq!(r.additional, vec!["x".to_string(), "y".to_string()]);
    assert!(r.validate_complete().is_err());
}

#[test]
fn the_nearest_directory_with_the_project_file_is_the_root() {
    assert_eq!(find_project_root(&vec![false, true, true]), Ok(1));
    assert_eq!(find_project_root(&vec![true]), Ok(0));
    assert_eq!(find_project_root(&vec![false, false]), Err(ProjectRootError::NotFound));
}

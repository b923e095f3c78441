use xluau::compiler::CompilerError;
use xluau::invocation::{resolve_invocation_target, InvocationTarget, PathFacts};

fn facts(absolute: &str, is_dir: bool, names_config: bool, parent: Option<&str>, nearest: Option<&str>) -> PathFacts {
    PathFacts {
        absolute: absolute.to_string(),
        is_dir,
        names_config,
        parent: parent.map(str::to_string),
        nearest_root: nearest.map(str::to_string),
    }
}

fn root_of(r: Result<InvocationTarget, CompilerError>) -> String {
    match r {
        Ok(InvocationTarget::ProjectRoot(root)) => root,
        other => panic!("expected a project root, got {other:?}"),
    }
}

#[test]
fn no_path_means_the_working_directory() {
    assert_eq!(root_of(resolve_invocation_target("/work", None)), "/work");
}

#[test]
fn a_directory_is_a_project_root() {
    let r = resolve_invocation_target("/work", Some(facts("/work/game", true, false, Some("/work"), None)));
    assert_eq!(root_of(r), "/work/game");
}

#[test]
fn a_configuration_file_names_its_directory() {
    let r = resolve_invocation_target(
        "/work",
        Some(facts("/work/game/XLUAU.config.json", false, true, Some("/work/game"), Some("/work/game"))),
    );
    assert_eq!(root_of(r), "/work/game");
    let r = resolve_invocation_target("/work", Some(facts("/", false, true, None, None)));
    match r {
        Err(CompilerError::Other(m)) => assert_eq!(m, "config path / has no parent directory"),
        other => panic!("expected an error, got {other:?}"),
    }
}

#[test]
fn a_file_uses_the_nearest_project_or_the_working_directory() {
    let r = resolve_invocation_target(
        "/work",
        Some(facts("/work/game/src/main.xl", false, false, Some("/work/game/src"), Some("/work/game"))),
    );
    match r {
        Ok(InvocationTarget::SingleFile { compiler_root, file_path }) => {
            assert_eq!(compiler_root, "/work/game");
            assert_eq!(file_path, "/work/game/src/main.xl");
        }
        other => panic!("expected a single file, got {other:?}"),
    }
    let r = resolve_invocation_target("/work", Some(facts("/tmp/x.xl", false, false, Some("/tmp"), None)));
    match r {
        Ok(InvocationTarget::SingleFile { compiler_root, .. }) => assert_eq!(compiler_root, "/work"),
        other => panic!("expected a single file, got {other:?}"),
    }
}

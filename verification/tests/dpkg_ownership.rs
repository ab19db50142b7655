use kunger::dpkg_ownership::{owners_from_run, parse_dpkg_search, search_command};
use kunger::process::{CommandOutput, RunError};

#[test]
fn parses_single_owner_lines() {
    let output = "firefox: /usr/share/applications/firefox.desktop\n\
                  git: /usr/share/applications/git-gui.desktop\n";
    let owners = parse_dpkg_search(output);
    assert_eq!(owners.get("/usr/share/applications/firefox.desktop").map(String::as_str), Some("firefox"));
    assert_eq!(owners.get("/usr/share/applications/git-gui.desktop").map(String::as_str), Some("git"));
}

#[test]
fn multiple_owning_packages_use_the_first_listed_one() {
    let output = "vim, vim-runtime: /usr/share/applications/vim.desktop\n";
    let owners = parse_dpkg_search(output);
    assert_eq!(owners.get("/usr/share/applications/vim.desktop").map(String::as_str), Some("vim"));
}

#[test]
fn unrecognized_or_stderr_style_lines_are_ignored_not_panicked_on() {
    let output = "dpkg-query: no path found matching pattern /opt/custom/app.desktop\n\
                  firefox: /usr/share/applications/firefox.desktop\n";
    let owners = parse_dpkg_search(output);
    assert_eq!(owners.len(), 1);
    assert!(owners.contains_key("/usr/share/applications/firefox.desktop"));
}

#[test]
fn empty_output_yields_an_empty_map() {
    assert!(parse_dpkg_search("").is_empty());
}

#[test]
fn dpkg_ownership_resolve_owners_with_no_paths_short_circuits_without_running_a_command() {
    assert!(search_command("kunger-nonexistent-dpkg-xyz", &Vec::new()).is_none());
}

#[test]
fn one_batched_command_looks_up_every_path() {
    let paths = vec!["/a.desktop".to_string(), "/b.desktop".to_string()];
    let cmd = search_command("dpkg", &paths).expect("a command");
    assert_eq!(cmd.program, "dpkg");
    assert_eq!(cmd.args, vec!["-S", "/a.desktop", "/b.desktop"]);
}

#[test]
fn resolve_owners_surfaces_a_run_error_when_dpkg_is_missing() {
    let result = owners_from_run(Err(RunError::NotFound("dpkg".to_string())));
    assert!(matches!(result, Err(RunError::NotFound(_))));
}

#[test]
fn a_run_with_a_non_zero_exit_still_yields_the_owners_it_printed() {
    let output = CommandOutput {
        stdout: "git: /usr/bin/git\n".to_string(),
        stderr: "dpkg-query: no path found matching pattern /opt/x\n".to_string(),
        exit_code: Some(1),
    };
    let owners = owners_from_run(Ok(output)).expect("owners");
    assert_eq!(owners.get("/usr/bin/git").map(String::as_str), Some("git"));
}

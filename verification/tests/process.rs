use ocfshell::interrupt::Interrupt;
use ocfshell::ocfl::{Inventory, OcflApi, StorageConfig, Version};
use ocfshell::process::{
    cd_action, cd_plan, ls_listing, ls_plan, pwd_step, size_line, CdAction, CdPlan, Command, Listing,
    LsPlan, Process,
};
use ocfshell::shell::ShellControl;
use ocfshell::steps::{
    cd_next, ls_next, pwd_next, CdAnswers, CdNext, LsAnswers, LsNext, PwdAnswers, PwdNext,
    RepoRequest,
};
use std::sync::atomic::AtomicBool;
use std::sync::Arc;

struct TestOcfl {
    ocfl_root: String,
    storage_config: StorageConfig,
    is_object_root: bool,
    is_repository_root: bool,
    inventory: Inventory,
}

fn copy_version(v: &Version) -> Version {
    Version {
        created: v.created.clone(),
        state: v.state.clone(),
    }
}

fn copy_inventory(i: &Inventory, id: String) -> Inventory {
    Inventory {
        id,
        head: i.head.clone(),
        manifest: i.manifest.clone(),
        versions: i
            .versions
            .iter()
            .map(|(k, v)| (k.clone(), copy_version(v)))
            .collect(),
    }
}

impl OcflApi for TestOcfl {
    fn ocfl_root(&self) -> &String {
        &self.ocfl_root
    }

    fn storage_config(&self) -> &StorageConfig {
        &self.storage_config
    }

    fn is_repository_root(&self, _path: &String) -> Result<bool, String> {
        Ok(self.is_repository_root)
    }

    fn is_object_root(&self, _path: &String) -> Result<bool, String> {
        Ok(self.is_object_root)
    }

    fn list_versions(&mut self, _path: &String) -> Result<Vec<String>, String> {
        Ok(vec!["v1".to_string()])
    }

    fn list_objects(&mut self, _interrupt: &Interrupt) -> Result<Vec<Inventory>, String> {
        Ok(vec![copy_inventory(&self.inventory, self.inventory.id.clone())])
    }

    fn load_inventory(&mut self, dir: String) -> Result<Inventory, String> {
        Ok(copy_inventory(&self.inventory, dir))
    }

    fn path_for_id(&mut self, id: &str) -> String {
        if id == "file" {
            format!("{}/a/b/c/abc-123/v1/file", self.ocfl_root)
        } else {
            format!("{}/a/b/c/abc-123", self.ocfl_root)
        }
    }

    fn modify_if_ocfl_path(&mut self, _path: &String, _args: Vec<String>) -> Result<Vec<String>, String> {
        Ok(vec![format!("{}/a/b/c/abc-123/v1/file", self.ocfl_root)])
    }
}

enum RepoAnswer {
    Flag(bool),
    Inventory(Inventory),
    Objects(Vec<Inventory>),
    Path(String),
    Args(Vec<String>),
}

// Asks the repository one question, as the shell does.
fn ask<O: OcflApi>(process: &mut Process<O>, request: RepoRequest) -> Result<RepoAnswer, String> {
    let ocfl = &mut process.ocfl;
    Ok(match request {
        RepoRequest::IsObjectRoot(dir) => RepoAnswer::Flag(ocfl.is_object_root(&dir)?),
        RepoRequest::IsRepositoryRoot(dir) => RepoAnswer::Flag(ocfl.is_repository_root(&dir)?),
        RepoRequest::LoadInventory(dir) => RepoAnswer::Inventory(ocfl.load_inventory(dir)?),
        RepoRequest::ListObjects => RepoAnswer::Objects(ocfl.list_objects(&process.interrupt)?),
        RepoRequest::PathForId(id) => RepoAnswer::Path(ocfl.path_for_id(&id)),
        RepoRequest::ResolveArgs(dir, args) => RepoAnswer::Args(ocfl.modify_if_ocfl_path(&dir, args)?),
        RepoRequest::OcflRoot => RepoAnswer::Path(ocfl.ocfl_root().clone()),
    })
}

fn run_ls<O: OcflApi>(process: &mut Process<O>, cwd: &String, args: Vec<String>) -> Result<Listing, String> {
    let mut answers = LsAnswers {
        object_root: None,
        repository_root: None,
        inventory: None,
        objects: None,
        object_path: None,
        resolved: None,
    };
    loop {
        let request = match ls_next(cwd, &args, &answers) {
            LsNext::Done(result) => return result,
            LsNext::Ask(request) => request,
        };
        let object_root_asked = matches!(request, RepoRequest::IsObjectRoot(_));
        match ask(process, request)? {
            RepoAnswer::Flag(b) if object_root_asked => answers.object_root = Some(b),
            RepoAnswer::Flag(b) => answers.repository_root = Some(b),
            RepoAnswer::Inventory(inv) => answers.inventory = Some(inv),
            RepoAnswer::Objects(objects) => answers.objects = Some(objects),
            RepoAnswer::Path(path) => answers.object_path = Some(path),
            RepoAnswer::Args(resolved) => answers.resolved = Some(resolved),
        }
    }
}

fn run_cd<O: OcflApi>(process: &mut Process<O>, cwd: &String, args: &Vec<String>) -> Result<CdAction, String> {
    let mut answers = CdAnswers {
        repository_root: None,
        object_root: None,
        id_path: None,
        root: None,
    };
    loop {
        let request = match cd_next(cwd, args, &answers) {
            CdNext::Done(action) => return Ok(action),
            CdNext::Ask(request) => request,
        };
        let repository_root_asked = matches!(request, RepoRequest::IsRepositoryRoot(_));
        let id_asked = matches!(request, RepoRequest::PathForId(_));
        match ask(process, request)? {
            RepoAnswer::Flag(b) if repository_root_asked => answers.repository_root = Some(b),
            RepoAnswer::Flag(b) => answers.object_root = Some(b),
            RepoAnswer::Path(path) if id_asked => answers.id_path = Some(path),
            RepoAnswer::Path(root) => answers.root = Some(root),
            _ => unreachable!(),
        }
    }
}

fn run_pwd<O: OcflApi>(process: &mut Process<O>, cwd: &String) -> Result<Vec<String>, String> {
    let mut answers = PwdAnswers {
        object_root: None,
        inventory: None,
    };
    loop {
        let request = match pwd_next(cwd, &answers) {
            PwdNext::Done(lines) => return Ok(lines),
            PwdNext::Ask(request) => request,
        };
        match ask(process, request)? {
            RepoAnswer::Flag(b) => answers.object_root = Some(b),
            RepoAnswer::Inventory(inv) => answers.inventory = Some(inv),
            _ => unreachable!(),
        }
    }
}

fn create_inventory(version_num: &str, paths: Vec<String>) -> Inventory {
    let version = Version {
        state: vec![(String::from(""), paths)],
        created: String::from(""),
    };
    Inventory {
        id: "object-id".to_string(),
        head: version_num.to_string(),
        manifest: Vec::new(),
        versions: vec![(String::from(version_num), version)],
    }
}

// Runs the built-in stages of `input` the way the shell does, with the
// current directory at the object root, and returns the output of the last.
fn run_process_tests(
    input: &str,
    expected_output: &str,
    is_repository_root: bool,
    expected_response: ShellControl,
) -> String {
    let ocfl_root = "/tmp/ocfl-root".to_string();
    let object_root = format!("{}/a/b/c/abc-123", ocfl_root);
    let inventory: Inventory = create_inventory("v1", vec![String::from("/test/path")]);
    let ocfl = TestOcfl {
        ocfl_root,
        storage_config: StorageConfig {
            digest_algorithm: "sha256".to_string(),
            tuple_size: 3,
            number_of_tuples: 3,
            short_object_root: false,
        },
        is_object_root: !is_repository_root,
        is_repository_root,
        inventory,
    };
    let interrupt: Interrupt = Arc::new(AtomicBool::new(false));
    let mut process = Process::new(ocfl, interrupt);
    let plan = process.process(input);
    let mut output: Vec<String> = Vec::new();
    let mut current_dir = object_root.clone();
    for stage in plan.stages {
        output = match stage.command {
            Command::Versions => process.run_versions(&current_dir).unwrap(),
            Command::Pwd => run_pwd(&mut process, &current_dir).unwrap(),
            Command::Ls(args) => match run_ls(&mut process, &current_dir, args).unwrap() {
                Listing::Lines(lines) => lines,
                // The file the test object holds is empty.
                Listing::FileSize(name) => vec![size_line(0, &name)],
            },
            Command::Cd(args) => {
                match run_cd(&mut process, &current_dir, &args).unwrap() {
                    CdAction::Enter(dir) => current_dir = dir,
                    CdAction::Probe { target, .. } => current_dir = target,
                    CdAction::Fallback(Some(dir)) => current_dir = dir,
                    CdAction::Fallback(None) => {}
                }
                Vec::new()
            }
            Command::External(_, _) => Vec::new(),
        };
    }
    let output = output.join("\n");
    assert_eq!(plan.control, expected_response);
    assert!(output.trim().contains(expected_output));
    current_dir
}

#[test]
fn test_ls_in_root_directory() {
    run_process_tests("ls", "object-id", true, ShellControl::Continue);
}

#[test]
fn test_ls_in_root_directory_with_path_arg() {
    run_process_tests("ls abc-123", "/test/path", true, ShellControl::Continue);
}

#[test]
fn test_ls_in_object_directory() {
    run_process_tests("ls", "/test/path", false, ShellControl::Continue);
}

#[test]
fn test_ls_in_object_directory_with_path_arg() {
    run_process_tests(
        "ls /test/path",
        "a/b/c/abc-123/v1/file",
        false,
        ShellControl::Continue,
    );
}

#[test]
fn run_pwd_in_object_directory() {
    run_process_tests("pwd", "Object ID", false, ShellControl::Continue);
}

#[test]
fn run_exit() {
    run_process_tests("exit", "", true, ShellControl::Exit);
}

#[test]
fn ls_outside_a_repository() {
    let ocfl = TestOcfl {
        ocfl_root: "/r".to_string(),
        storage_config: StorageConfig {
            digest_algorithm: "sha256".to_string(),
            tuple_size: 3,
            number_of_tuples: 3,
            short_object_root: false,
        },
        is_object_root: false,
        is_repository_root: false,
        inventory: create_inventory("v1", Vec::new()),
    };
    let mut process = Process::new(ocfl, Arc::new(AtomicBool::new(false)));
    match run_ls(&mut process, &"/elsewhere".to_string(), Vec::new()).unwrap() {
        Listing::Lines(lines) => assert_eq!(lines, vec!["Nothing to do"]),
        Listing::FileSize(_) => panic!("expected lines"),
    }
}

#[test]
fn ls_with_missing_head_is_an_error() {
    let mut inventory = create_inventory("v1", Vec::new());
    inventory.head = "v9".to_string();
    let ocfl = TestOcfl {
        ocfl_root: "/r".to_string(),
        storage_config: StorageConfig {
            digest_algorithm: "sha256".to_string(),
            tuple_size: 3,
            number_of_tuples: 3,
            short_object_root: false,
        },
        is_object_root: true,
        is_repository_root: false,
        inventory,
    };
    let mut process = Process::new(ocfl, Arc::new(AtomicBool::new(false)));
    match run_ls(&mut process, &"/r/obj".to_string(), Vec::new()) {
        Err(m) => assert_eq!(m, "Version v9 missing from inventory json for id /r/obj"),
        Ok(_) => panic!("expected an error"),
    }
}

#[test]
fn cd_in_repository_and_object() {
    let make = |repo: bool| TestOcfl {
        ocfl_root: "/r".to_string(),
        storage_config: StorageConfig {
            digest_algorithm: "sha256".to_string(),
            tuple_size: 3,
            number_of_tuples: 3,
            short_object_root: false,
        },
        is_object_root: !repo,
        is_repository_root: repo,
        inventory: create_inventory("v1", Vec::new()),
    };
    let mut process = Process::new(make(true), Arc::new(AtomicBool::new(false)));
    match run_cd(&mut process, &"/r".to_string(), &vec!["id".to_string()]).unwrap() {
        CdAction::Probe { target, fallback } => {
            assert_eq!(target, "/r/a/b/c/abc-123");
            assert_eq!(fallback, Some("id".to_string()));
        }
        _ => panic!("expected a probe"),
    }
    match run_cd(&mut process, &"/r".to_string(), &Vec::new()).unwrap() {
        CdAction::Probe { target, fallback } => {
            assert_eq!(target, "/r");
            assert_eq!(fallback, None);
        }
        _ => panic!("expected a probe"),
    }
    let mut process = Process::new(make(false), Arc::new(AtomicBool::new(false)));
    match run_cd(&mut process, &"/r/o".to_string(), &vec!["..".to_string()]).unwrap() {
        CdAction::Enter(dir) => assert_eq!(dir, "/r"),
        _ => panic!("expected to enter the root"),
    }
    match run_cd(&mut process, &"/r/o".to_string(), &vec!["sub".to_string()]).unwrap() {
        CdAction::Fallback(dir) => assert_eq!(dir, Some("sub".to_string())),
        _ => panic!("expected a fallback"),
    }
}

#[test]
fn pipelines_split_into_stages() {
    let ocfl = TestOcfl {
        ocfl_root: "/r".to_string(),
        storage_config: StorageConfig {
            digest_algorithm: "sha256".to_string(),
            tuple_size: 3,
            number_of_tuples: 3,
            short_object_root: false,
        },
        is_object_root: false,
        is_repository_root: true,
        inventory: create_inventory("v1", Vec::new()),
    };
    let mut process = Process::new(ocfl, Arc::new(AtomicBool::new(false)));

    let plan = process.process("  ls -l | grep txt | wc  ");
    assert_eq!(plan.control, ShellControl::Continue);
    assert_eq!(plan.stages.len(), 3);
    assert!(matches!(&plan.stages[0].command, Command::Ls(a) if a == &vec!["-l".to_string()]));
    assert!(plan.stages[0].piped && !plan.stages[0].reads_previous);
    assert!(matches!(&plan.stages[1].command, Command::External(p, a) if p == "grep" && a == &vec!["txt".to_string()]));
    assert!(plan.stages[1].piped && plan.stages[1].reads_previous);
    assert!(matches!(&plan.stages[2].command, Command::External(p, a) if p == "wc" && a.is_empty()));
    assert!(!plan.stages[2].piped && plan.stages[2].reads_previous);

    let plan = process.process("pwd | exit | ls");
    assert_eq!(plan.control, ShellControl::Exit);
    assert_eq!(plan.stages.len(), 1);
    assert!(matches!(plan.stages[0].command, Command::Pwd));
    assert!(plan.stages[0].piped);

    let plan = process.process("");
    assert_eq!(plan.control, ShellControl::Continue);
    assert!(plan.stages.is_empty());

    let plan = process.process("   ");
    assert_eq!(plan.control, ShellControl::Continue);
    assert!(plan.stages.is_empty());

    let plan = process.process("echo hello | cat");
    assert_eq!(plan.stages.len(), 2);
    assert!(matches!(&plan.stages[0].command, Command::External(p, a) if p == "echo" && a == &vec!["hello".to_string()]));
    assert!(plan.stages[0].piped && !plan.stages[0].reads_previous);
    assert!(matches!(&plan.stages[1].command, Command::External(p, a) if p == "cat" && a.is_empty()));
    assert!(!plan.stages[1].piped && plan.stages[1].reads_previous);

    let plan = process.process("cd id | cat");
    assert!(matches!(&plan.stages[0].command, Command::Cd(a) if a == &vec!["id".to_string()]));
    assert!(!plan.stages[1].reads_previous);

    let plan = process.process("versions x");
    assert!(matches!(plan.stages[0].command, Command::Versions));
}

#[test]
fn ls_plans() {
    let none: Vec<String> = Vec::new();
    let dash = vec!["-l".to_string()];
    let id = vec!["x".to_string(), "id".to_string()];
    assert!(matches!(ls_plan(true, false, &none), LsPlan::HeadState));
    assert!(matches!(ls_plan(true, true, &dash), LsPlan::FileSize));
    assert!(matches!(ls_plan(false, true, &none), LsPlan::AllObjects));
    assert!(matches!(ls_plan(false, true, &dash), LsPlan::AllObjects));
    assert!(matches!(ls_plan(false, true, &id), LsPlan::ObjectState(i) if i == "id"));
    assert!(matches!(ls_plan(false, false, &id), LsPlan::NothingToDo));
}

#[test]
fn cd_plans() {
    let none: Vec<String> = Vec::new();
    let up = vec!["..".to_string()];
    let sub = vec!["sub".to_string()];
    assert!(matches!(cd_plan(true, false, &up), CdPlan::IntoObject));
    assert!(matches!(cd_plan(false, true, &up), CdPlan::ToRoot));
    assert!(matches!(cd_plan(false, true, &sub), CdPlan::ToArgument));
    assert!(matches!(cd_plan(false, false, &up), CdPlan::ToArgument));
    assert!(matches!(cd_plan(false, true, &none), CdPlan::ToArgument));
}

#[test]
fn ls_listings_from_answers() {
    let nothing = ls_listing(&LsPlan::NothingToDo, None, None, None).unwrap();
    assert!(matches!(nothing, Listing::Lines(l) if l == vec!["Nothing to do".to_string()]));

    let mut second = create_inventory("v1", Vec::new());
    second.id = "other-id".to_string();
    let objects = vec![create_inventory("v1", Vec::new()), second];
    let all = ls_listing(&LsPlan::AllObjects, Some(&objects), None, None).unwrap();
    assert!(matches!(all, Listing::Lines(l) if l == vec!["object-id".to_string(), "other-id".to_string()]));

    let inventory = create_inventory("v1", vec!["a.txt".to_string(), "b.txt".to_string()]);
    let head = ls_listing(&LsPlan::HeadState, None, Some(&inventory), None).unwrap();
    assert!(matches!(head, Listing::Lines(l) if l == vec!["a.txt".to_string(), "b.txt".to_string()]));
    let object = ls_listing(&LsPlan::ObjectState("x".to_string()), None, Some(&inventory), None).unwrap();
    assert!(matches!(object, Listing::Lines(l) if l == vec!["a.txt".to_string(), "b.txt".to_string()]));

    let resolved = vec!["-l".to_string(), "v1/content/a.txt".to_string()];
    let size = ls_listing(&LsPlan::FileSize, None, Some(&inventory), Some(&resolved)).unwrap();
    assert!(matches!(size, Listing::FileSize(n) if n == "v1/content/a.txt"));
    let empty: Vec<String> = Vec::new();
    match ls_listing(&LsPlan::FileSize, None, Some(&inventory), Some(&empty)) {
        Err(m) => assert_eq!(m, "ls: no file to list"),
        Ok(_) => panic!("expected an error"),
    }

    let mut headless = create_inventory("v1", Vec::new());
    headless.head = "v2".to_string();
    match ls_listing(&LsPlan::HeadState, None, Some(&headless), None) {
        Err(m) => assert_eq!(m, "Version v2 missing from inventory json for id object-id"),
        Ok(_) => panic!("expected an error"),
    }
    match ls_listing(&LsPlan::FileSize, None, Some(&headless), None) {
        Err(m) => assert_eq!(m, "Version v2 missing from inventory json for id object-id"),
        Ok(_) => panic!("expected an error"),
    }
}

#[test]
fn cd_actions_from_answers() {
    let root = "/r".to_string();
    let id = vec!["id".to_string(), "other".to_string()];
    let none: Vec<String> = Vec::new();
    match cd_action(CdPlan::IntoObject, Some("/r/a/b".to_string()), &root, &id) {
        CdAction::Probe { target, fallback } => {
            assert_eq!(target, "/r/a/b");
            assert_eq!(fallback, Some("other".to_string()));
        }
        _ => panic!("expected a probe"),
    }
    match cd_action(CdPlan::IntoObject, None, &root, &none) {
        CdAction::Probe { target, fallback } => {
            assert_eq!(target, "/r");
            assert_eq!(fallback, None);
        }
        _ => panic!("expected a probe"),
    }
    let up = vec!["..".to_string()];
    assert!(matches!(cd_action(CdPlan::ToRoot, None, &root, &up), CdAction::Enter(d) if d == "/r"));
    assert!(matches!(cd_action(CdPlan::ToArgument, None, &root, &id), CdAction::Fallback(Some(d)) if d == "other"));
    assert!(matches!(cd_action(CdPlan::ToArgument, None, &root, &none), CdAction::Fallback(None)));
}

#[test]
fn pwd_steps_from_answers() {
    let cwd = "/r/o".to_string();
    let inventory = create_inventory("v1", Vec::new());
    assert_eq!(
        pwd_step(&cwd, true, Some(&inventory)),
        vec!["Object ID object-id".to_string(), "/r/o".to_string()]
    );
    assert_eq!(pwd_step(&cwd, false, None), vec!["/r/o".to_string()]);
}

#[test]
fn ls_steps_ask_in_order() {
    let cwd = "/r".to_string();
    let args = vec!["abc-123".to_string()];
    let mut answers = LsAnswers {
        object_root: None,
        repository_root: None,
        inventory: None,
        objects: None,
        object_path: None,
        resolved: None,
    };
    assert!(matches!(ls_next(&cwd, &args, &answers), LsNext::Ask(RepoRequest::IsObjectRoot(d)) if d == "/r"));
    answers.object_root = Some(false);
    assert!(matches!(ls_next(&cwd, &args, &answers), LsNext::Ask(RepoRequest::IsRepositoryRoot(d)) if d == "/r"));
    answers.repository_root = Some(true);
    assert!(matches!(ls_next(&cwd, &args, &answers), LsNext::Ask(RepoRequest::PathForId(id)) if id == "abc-123"));
    answers.object_path = Some("/r/a/b/c/abc-123".to_string());
    assert!(matches!(ls_next(&cwd, &args, &answers), LsNext::Ask(RepoRequest::LoadInventory(d)) if d == "/r/a/b/c/abc-123"));
    answers.inventory = Some(create_inventory("v1", vec!["x.txt".to_string()]));
    assert!(matches!(ls_next(&cwd, &args, &answers), LsNext::Done(Ok(Listing::Lines(l))) if l == vec!["x.txt".to_string()]));

    let none: Vec<String> = Vec::new();
    answers.objects = Some(vec![create_inventory("v1", Vec::new())]);
    assert!(matches!(ls_next(&cwd, &none, &answers), LsNext::Done(Ok(Listing::Lines(l))) if l == vec!["object-id".to_string()]));

    let file = vec!["x.txt".to_string()];
    let mut in_object = LsAnswers {
        object_root: Some(true),
        repository_root: None,
        inventory: Some(create_inventory("v1", vec!["x.txt".to_string()])),
        objects: None,
        object_path: None,
        resolved: None,
    };
    assert!(matches!(ls_next(&cwd, &file, &in_object), LsNext::Ask(RepoRequest::ResolveArgs(d, a)) if d == "/r" && a == vec!["x.txt".to_string()]));
    in_object.resolved = Some(vec!["v1/content/x.txt".to_string()]);
    assert!(matches!(ls_next(&cwd, &file, &in_object), LsNext::Done(Ok(Listing::FileSize(n))) if n == "v1/content/x.txt"));
}

#[test]
fn cd_steps_ask_in_order() {
    let cwd = "/r/o".to_string();
    let up = vec!["..".to_string()];
    let mut answers = CdAnswers {
        repository_root: None,
        object_root: None,
        id_path: None,
        root: None,
    };
    assert!(matches!(cd_next(&cwd, &up, &answers), CdNext::Ask(RepoRequest::IsRepositoryRoot(d)) if d == "/r/o"));
    answers.repository_root = Some(false);
    assert!(matches!(cd_next(&cwd, &up, &answers), CdNext::Ask(RepoRequest::IsObjectRoot(d)) if d == "/r/o"));
    answers.object_root = Some(true);
    assert!(matches!(cd_next(&cwd, &up, &answers), CdNext::Ask(RepoRequest::OcflRoot)));
    answers.root = Some("/r".to_string());
    assert!(matches!(cd_next(&cwd, &up, &answers), CdNext::Done(CdAction::Enter(d)) if d == "/r"));

    let ids = vec!["id".to_string(), "other".to_string()];
    let mut at_root = CdAnswers {
        repository_root: Some(true),
        object_root: None,
        id_path: None,
        root: None,
    };
    assert!(matches!(cd_next(&cwd, &ids, &at_root), CdNext::Ask(RepoRequest::PathForId(id)) if id == "id"));
    at_root.id_path = Some("/r/a/b".to_string());
    match cd_next(&cwd, &ids, &at_root) {
        CdNext::Done(CdAction::Probe { target, fallback }) => {
            assert_eq!(target, "/r/a/b");
            assert_eq!(fallback, Some("other".to_string()));
        }
        _ => panic!("expected a probe"),
    }
}

#[test]
fn pwd_steps_ask_in_order() {
    let cwd = "/r/o".to_string();
    let mut answers = PwdAnswers {
        object_root: None,
        inventory: None,
    };
    assert!(matches!(pwd_next(&cwd, &answers), PwdNext::Ask(RepoRequest::IsObjectRoot(d)) if d == "/r/o"));
    answers.object_root = Some(true);
    assert!(matches!(pwd_next(&cwd, &answers), PwdNext::Ask(RepoRequest::LoadInventory(d)) if d == "/r/o"));
    answers.inventory = Some(create_inventory("v1", Vec::new()));
    assert!(matches!(pwd_next(&cwd, &answers), PwdNext::Done(l) if l == vec!["Object ID object-id".to_string(), "/r/o".to_string()]));
    answers.object_root = Some(false);
    assert!(matches!(pwd_next(&cwd, &answers), PwdNext::Done(l) if l == vec!["/r/o".to_string()]));
}

use elevate_pam::config::{ControlFlag, GlobalConfig, ModuleEntry, ServiceConfig};
use elevate_pam::constants::{PAM_AUTH_ERR, PAM_IGNORE, PAM_PERM_DENIED, PAM_SUCCESS};
use elevate_pam::dispatch::{splice_includes, Included, IncludeProgress, IncludeRun, StackRun, Step};
use elevate_pam::error::PamError;
use elevate_pam::types::StackKind;

fn entry(control: ControlFlag, module: &str) -> ModuleEntry {
    ModuleEntry { control, module: module.to_string(), args: Vec::new(), optional_load: false, actions: None }
}

struct OneService {
    name: String,
    auth: Vec<ModuleEntry>,
}

impl OneService {
    fn load_service(&mut self, name: &str) -> Result<ServiceConfig, PamError> {
        if name == self.name {
            let mut cfg = ServiceConfig::default();
            cfg.auth = self.auth.clone();
            Ok(cfg)
        } else {
            Err(PamError::Config(format!("no {name}")))
        }
    }
}

/// Drive an include run, loading from `loader`.
fn resolve_includes(
    loader: &mut OneService,
    global: &GlobalConfig,
    entries: &[ModuleEntry],
    kind: StackKind,
    depth: u32,
) -> Result<Vec<ModuleEntry>, PamError> {
    let mut progress = IncludeRun::new(global, entries.to_vec(), kind, depth).step(None);
    loop {
        progress = match progress {
            IncludeProgress::Load(run, name) => run.step(Some(loader.load_service(&name))),
            IncludeProgress::Continue(run) => run.step(None),
            IncludeProgress::Finish(r) => return r,
        };
    }
}

/// The return value of the test modules: `permit` succeeds, everything
/// else fails.
fn module_result(module: &str) -> i32 {
    if module == "permit" {
        PAM_SUCCESS
    } else {
        PAM_AUTH_ERR
    }
}

/// Run a resolved stack as the dispatcher does, recording which modules ran.
fn run(entries: &[ModuleEntry]) -> (i32, Vec<String>) {
    let mut run = StackRun::new();
    let mut ran = Vec::new();
    while run.index < entries.len() {
        let e = &entries[run.index];
        ran.push(e.module.clone());
        match run.module_returned(&e.resolved_actions(), module_result(&e.module)) {
            Step::Continue => {}
            Step::Finish => break,
            Step::Stop(s) => return (s, ran),
            Step::Incomplete => return (-1, ran),
        }
    }
    (run.outcome(), ran)
}

#[test]
fn included_sufficient_short_circuits_the_whole_outer_stack() {
    let global = GlobalConfig::default();
    let mut loader = OneService {
        name: "common-auth".to_string(),
        auth: vec![entry(ControlFlag::Sufficient, "permit")],
    };
    let entries = vec![entry(ControlFlag::Include, "common-auth"), entry(ControlFlag::Required, "deny")];
    let resolved = resolve_includes(&mut loader, &global, &entries, StackKind::Auth, 0).unwrap();
    let (status, ran) = run(&resolved);
    assert_eq!(status, PAM_SUCCESS);
    assert_eq!(ran, vec!["permit".to_string()]);
}

#[test]
fn stack_without_includes_is_kept_and_all_ignored_is_denied() {
    let global = GlobalConfig::default();
    let mut loader = OneService { name: "x".to_string(), auth: Vec::new() };
    let entries = vec![entry(ControlFlag::Required, "deny"), entry(ControlFlag::Optional, "permit")];
    let resolved = resolve_includes(&mut loader, &global, &entries, StackKind::Auth, 0).unwrap();
    assert_eq!(resolved.len(), 2);
    assert_eq!(resolved[0].module, "deny");
    assert_eq!(resolved[1].control, ControlFlag::Optional);

    let mut run = StackRun::new();
    let table = ControlFlag::Optional.actions();
    assert_eq!(run.module_returned(&table, PAM_IGNORE), Step::Continue);
    assert_eq!(run.module_returned(&table, PAM_IGNORE), Step::Continue);
    assert_eq!(run.outcome(), PAM_PERM_DENIED);
}

#[test]
fn splice_includes_places_each_outcome() {
    let global = GlobalConfig::default();
    let mut opt = entry(ControlFlag::Include, "maybe");
    opt.optional_load = true;
    let entries = vec![
        entry(ControlFlag::Required, "first"),
        entry(ControlFlag::Include, "common"),
        opt.clone(),
        entry(ControlFlag::Required, "last"),
    ];
    let outcomes = vec![
        Included::Skipped,
        Included::Loaded(ServiceConfig::default(), Ok(vec![entry(ControlFlag::Sufficient, "a"), entry(ControlFlag::Required, "b")])),
        Included::LoadFailed(PamError::Config("gone".to_string())),
        Included::Skipped,
    ];
    let r = splice_includes(&global, &entries, outcomes, 0).unwrap();
    let names: Vec<&str> = r.iter().map(|e| e.module.as_str()).collect();
    assert_eq!(names, vec!["first", "a", "b", "last"]);

    // A required include that failed to load ends the splicing with its error.
    let entries = vec![entry(ControlFlag::Include, "common"), entry(ControlFlag::Include, "other")];
    let outcomes = vec![Included::LoadFailed(PamError::Config("no common".to_string())), Included::Skipped];
    match splice_includes(&global, &entries, outcomes, 0) {
        Err(PamError::Config(m)) => assert_eq!(m, "no common"),
        other => panic!("unexpected {other:?}"),
    }

    // A failure inside an included stack is an error even when optional.
    let outcomes = vec![
        Included::Loaded(ServiceConfig::default(), Err(PamError::Config("deep".to_string()))),
        Included::Skipped,
    ];
    let entries = vec![opt.clone(), entry(ControlFlag::Required, "x")];
    assert!(splice_includes(&global, &entries, outcomes, 0).is_err());

    // At the depth limit nothing is loaded: a required include is an error.
    let entries = vec![entry(ControlFlag::Include, "deep")];
    match splice_includes(&global, &entries, vec![Included::Skipped], 32) {
        Err(PamError::Config(m)) => assert_eq!(m, "include depth exceeded (32) resolving 'deep'"),
        other => panic!("unexpected {other:?}"),
    }
}

#[test]
fn include_run_asks_for_the_named_service_and_takes_its_answer() {
    let global = GlobalConfig::default();
    let entries = vec![entry(ControlFlag::Required, "first"), entry(ControlFlag::Include, "common-auth")];
    let run = match IncludeRun::new(&global, entries, StackKind::Auth, 0).step(None) {
        IncludeProgress::Continue(run) => run,
        other => panic!("unexpected {other:?}"),
    };
    let run = match run.step(None) {
        IncludeProgress::Load(run, name) => {
            assert_eq!(name, "common-auth");
            run
        }
        other => panic!("unexpected {other:?}"),
    };
    // A failed load of a required include ends the run with its error.
    let run = match run.step(Some(Err(PamError::Config("missing".to_string())))) {
        IncludeProgress::Continue(run) => run,
        other => panic!("unexpected {other:?}"),
    };
    match run.step(None) {
        IncludeProgress::Finish(Err(PamError::Config(m))) => assert_eq!(m, "missing"),
        other => panic!("unexpected {other:?}"),
    }
}

#[test]
fn include_run_without_includes_loads_nothing() {
    let global = GlobalConfig::default();
    let entries = vec![entry(ControlFlag::Required, "a"), entry(ControlFlag::Substack, "b")];
    let mut progress = IncludeRun::new(&global, entries, StackKind::Auth, 0).step(None);
    loop {
        progress = match progress {
            IncludeProgress::Load(_, name) => panic!("asked to load {name}"),
            IncludeProgress::Continue(run) => run.step(None),
            IncludeProgress::Finish(r) => {
                let v = r.unwrap();
                assert_eq!(v.len(), 2);
                assert_eq!(v[1].control, ControlFlag::Substack);
                break;
            }
        };
    }
}

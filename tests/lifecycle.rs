use serveme::lifecycle::{
    cleanup_processes, delete_extension, finish_run, list_extensions, run_extension,
    stop_extension, CrashReport, ErrorKind, ExtensionError, ExtensionInfo, Listing,
};
use serveme::registry::{Poll, Registry, Status};
use std::collections::HashMap;

/// A host whose Store is a list of names and whose processes are numbers.
struct Host {
    store: Vec<String>,
    registry: Registry<u32>,
    procs: HashMap<u32, Poll>,
    next: u32,
}

impl Host {
    fn new(files: &[&str]) -> Host {
        Host {
            store: files.iter().map(|s| s.to_string()).collect(),
            registry: Registry::new(),
            procs: HashMap::new(),
            next: 1,
        }
    }

    fn poll(&self, id: &String) -> Poll {
        match self.registry.handle(id) {
            Some(h) => self.procs[h],
            None => Poll::Alive,
        }
    }

    fn list(&mut self) -> Listing {
        let obs: Vec<(String, Poll)> = self.store.iter().map(|f| (f.clone(), self.poll(f))).collect();
        list_extensions(&mut self.registry, &obs)
    }

    fn run(&mut self, id: &str) -> Result<(), ExtensionError> {
        let id = id.to_string();
        let in_store = self.store.contains(&id);
        let poll = self.poll(&id);
        run_extension(&mut self.registry, &id, in_store, poll)?;
        let h = self.next;
        self.next += 1;
        self.procs.insert(h, Poll::Alive);
        finish_run(&mut self.registry, id, Ok(h))
    }

    fn stop(&mut self, id: &str) -> Result<(), ExtensionError> {
        let id = id.to_string();
        let killed = match self.registry.handle(&id) {
            Some(h) => {
                self.procs.insert(*h, Poll::ExitedError(None));
                Ok(())
            }
            None => Ok(()),
        };
        stop_extension(&mut self.registry, &id, killed)
    }

    fn delete(&mut self, id: &str) {
        let id = id.to_string();
        if let Some(h) = delete_extension(&mut self.registry, &id) {
            self.procs.insert(h, Poll::ExitedError(None));
        }
        self.store.retain(|f| *f != id);
    }

    fn exit(&mut self, id: &str, how: Poll) {
        let h = *self.registry.handle(&id.to_string()).unwrap();
        self.procs.insert(h, how);
    }
}

fn view(e: &ExtensionInfo) -> (&str, &str, &str, bool) {
    (&e.id, &e.name, &e.version, e.is_running)
}

#[test]
fn run_of_missing_file_is_not_found() {
    let mut host = Host::new(&["A - 1.exe"]);
    host.run("A - 1.exe").unwrap();
    let err = host.run("Missing.exe").unwrap_err();
    assert_eq!(err.kind, ErrorKind::NotFound);
    assert_eq!(err.subject, "Missing.exe");
    assert_eq!(err.message(), "Extension 'Missing.exe' not found");
    assert!(host.registry.is_tracked(&"A - 1.exe".to_string()));
    assert!(!host.registry.is_tracked(&"Missing.exe".to_string()));
}

#[test]
fn missing_file_is_not_found_even_if_tracked() {
    let mut reg: Registry<u32> = Registry::new();
    let id = "Gone.exe".to_string();
    finish_run(&mut reg, id.clone(), Ok(4)).unwrap();
    let err = run_extension(&mut reg, &id, false, Poll::ExitedOk).unwrap_err();
    assert_eq!(err.kind, ErrorKind::NotFound);
    assert_eq!(reg.handle(&id), Some(&4));
}

#[test]
fn second_run_of_live_process_is_refused() {
    let mut host = Host::new(&["A - 1.exe"]);
    host.run("A - 1.exe").unwrap();
    let err = host.run("A - 1.exe").unwrap_err();
    assert_eq!(err.kind, ErrorKind::AlreadyRunning);
    assert_eq!(err.message(), "Extension 'A - 1.exe' is already running");
    assert_eq!(host.registry.handle(&"A - 1.exe".to_string()), Some(&1));
    assert_eq!(cleanup_processes(&mut host.registry).len(), 1);
}

#[test]
fn run_after_exit_starts_again() {
    let mut host = Host::new(&["A - 1.exe"]);
    host.run("A - 1.exe").unwrap();
    host.exit("A - 1.exe", Poll::ExitedOk);
    host.run("A - 1.exe").unwrap();
    assert_eq!(host.registry.handle(&"A - 1.exe".to_string()), Some(&2));
}

#[test]
fn failed_spawn_is_reported() {
    let mut reg: Registry<u32> = Registry::new();
    let id = "A.exe".to_string();
    run_extension(&mut reg, &id, true, Poll::Alive).unwrap();
    let err = finish_run(&mut reg, id.clone(), Err("denied".to_string())).unwrap_err();
    assert_eq!(err.kind, ErrorKind::SpawnError);
    assert_eq!(err.detail, "denied");
    assert_eq!(err.message(), "Failed to spawn extension 'A.exe': denied");
    assert!(!reg.is_tracked(&id));
}

#[test]
fn failed_kill_keeps_entry() {
    let mut reg: Registry<u32> = Registry::new();
    let id = "A.exe".to_string();
    finish_run(&mut reg, id.clone(), Ok(9)).unwrap();
    let err = stop_extension(&mut reg, &id, Err("busy".to_string())).unwrap_err();
    assert_eq!(err.kind, ErrorKind::KillError);
    assert_eq!(err.message(), "Failed to kill extension 'A.exe': busy");
    assert_eq!(reg.handle(&id), Some(&9));
    stop_extension(&mut reg, &id, Ok(())).unwrap();
    assert!(!reg.is_tracked(&id));
}

#[test]
fn stop_of_untracked_is_no_op() {
    let mut reg: Registry<u32> = Registry::new();
    let id = "A.exe".to_string();
    stop_extension(&mut reg, &id, Err("never read".to_string())).unwrap();
    assert!(!reg.is_tracked(&id));
}

#[test]
fn io_error_message_names_path() {
    let e = ExtensionError::new(ErrorKind::IoError, "/x/A.exe".to_string(), "denied".to_string());
    assert_eq!(e.message(), "Failed to access '/x/A.exe': denied");
}

#[test]
fn exited_process_leaves_listing() {
    for how in [Poll::ExitedOk, Poll::ExitedError(Some(3))] {
        let mut host = Host::new(&["A - 1.exe", "B - 1.exe"]);
        host.run("A - 1.exe").unwrap();
        host.run("B - 1.exe").unwrap();
        host.exit("A - 1.exe", how);
        let listing = host.list();
        assert_eq!(view(&listing.extensions[0]), ("A - 1.exe", "A", "1", false));
        assert_eq!(view(&listing.extensions[1]), ("B - 1.exe", "B", "1", true));
        assert!(!host.registry.is_tracked(&"A - 1.exe".to_string()));
        assert!(host.registry.is_tracked(&"B - 1.exe".to_string()));
    }
}

#[test]
fn crash_is_reported_once() {
    let mut host = Host::new(&["A - 1.exe", "Ok - 2.exe"]);
    host.run("A - 1.exe").unwrap();
    host.run("Ok - 2.exe").unwrap();
    host.exit("A - 1.exe", Poll::ExitedError(Some(1)));
    host.exit("Ok - 2.exe", Poll::ExitedOk);
    let first = host.list();
    assert_eq!(first.crashed.len(), 1);
    assert_eq!(first.crashed[0].id, "A - 1.exe");
    assert_eq!(first.crashed[0].name, "A");
    assert_eq!(first.crashed[0].message(), "Extension 'A' exited with an error.");
    assert!(host.list().crashed.is_empty());
}

#[test]
fn unreadable_poll_drops_entry_without_crash() {
    let mut host = Host::new(&["A.exe"]);
    host.run("A.exe").unwrap();
    host.exit("A.exe", Poll::Unreadable);
    let listing = host.list();
    assert!(listing.crashed.is_empty());
    assert!(!listing.extensions[0].is_running);
    assert!(!host.registry.is_tracked(&"A.exe".to_string()));
}

#[test]
fn listing_ignores_case_in_order() {
    let mut host = Host::new(&["b - 1.exe", "C.exe", "a - 2.exe", "B2.exe"]);
    let names: Vec<String> = host.list().extensions.iter().map(|e| e.name.clone()).collect();
    assert_eq!(names, vec!["a", "b", "B2", "C"]);
}

#[test]
fn delete_running_extension() {
    let mut host = Host::new(&["A - 1.exe"]);
    host.run("A - 1.exe").unwrap();
    host.delete("A - 1.exe");
    let id = "A - 1.exe".to_string();
    assert_eq!(host.registry.is_running(&id, Poll::Alive), Status::NotTracked);
    assert!(host.store.is_empty());
    assert!(host.list().extensions.is_empty());
}

#[test]
fn delete_of_unknown_identifier_is_no_op() {
    let mut reg: Registry<u32> = Registry::new();
    finish_run(&mut reg, "A.exe".to_string(), Ok(1)).unwrap();
    assert_eq!(delete_extension(&mut reg, &"B.exe".to_string()), None);
    assert!(reg.is_tracked(&"A.exe".to_string()));
}

#[test]
fn shutdown_untracks_everything() {
    let mut host = Host::new(&["A.exe", "B.exe", "C.exe"]);
    host.run("A.exe").unwrap();
    host.run("C.exe").unwrap();
    let mut drained: Vec<(String, u32)> = cleanup_processes(&mut host.registry);
    drained.sort();
    assert_eq!(drained, vec![("A.exe".to_string(), 1), ("C.exe".to_string(), 2)]);
    for id in ["A.exe", "B.exe", "C.exe"] {
        let id = id.to_string();
        assert_eq!(host.registry.is_running(&id, Poll::Alive), Status::NotTracked);
    }
}

#[test]
fn install_run_stop_delete_scenario() {
    let mut host = Host::new(&[]);
    host.store.push("Foo - 1.0.exe".to_string());
    let l = host.list();
    assert_eq!(l.extensions.len(), 1);
    assert_eq!(view(&l.extensions[0]), ("Foo - 1.0.exe", "Foo", "1.0", false));
    host.run("Foo - 1.0.exe").unwrap();
    assert!(host.list().extensions[0].is_running);
    host.stop("Foo - 1.0.exe").unwrap();
    let l = host.list();
    assert!(!l.extensions[0].is_running);
    assert!(l.crashed.is_empty());
    host.delete("Foo - 1.0.exe");
    assert!(host.list().extensions.is_empty());
}

#[test]
fn describe_and_duplicate() {
    let e = ExtensionInfo::describe(&"Tool - 2.exe".to_string(), true);
    assert_eq!(view(&e), ("Tool - 2.exe", "Tool", "2", true));
    let d = e.duplicate();
    assert_eq!(view(&d), view(&e));
}

#[test]
fn crash_report_message() {
    let c = CrashReport { id: "X - 1.exe".to_string(), name: "X".to_string() };
    assert_eq!(c.message(), "Extension 'X' exited with an error.");
}

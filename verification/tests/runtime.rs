use custard::access::{Access, AccessType};
use custard::control_flow::{InstanceControlFlow, TaskControlFlow, TaskError};
use custard::fulfiller::{Fulfiller, Quit};
use custard::getter::{DatachunkGetter, DatachunkGetterResult};
use custard::identify::{CrateName, CustardName, DatachunkName, FullDatachunkName, FullTaskName, TaskName};
use custard::instance::FFIResult;
use custard::loaded::{LoadedComposition, LoadedCrate, LoadedDatachunk};
use custard::mutable_arc::MutableArc;
use custard::ready::Ready;
use custard::statics::UnloadedStaticArray;
use custard::unloaded::{UnloadedComposition, UnloadedCrate, UnloadedTask};

fn line_task(parents: Vec<(&str, &str)>, entrypoint: bool) -> UnloadedTask {
    UnloadedTask {
        kind_name: String::from("k"),
        deserialize_path: String::from("p"),
        parents: parents
            .into_iter()
            .map(|(c, t)| FullTaskName::new(String::from(c), String::from(t)))
            .collect(),
        accesses: Vec::new(),
        entrypoint,
    }
}

/// One crate, tasks a -> b -> c -> a (a is the entrypoint).
fn triangle() -> UnloadedComposition {
    UnloadedComposition {
        crates: vec![(
            CrateName::new(String::from("x")),
            UnloadedCrate {
                datachunks: Vec::new(),
                tasks: vec![
                    (TaskName::new(String::from("a")), line_task(vec![("x", "c")], true)),
                    (TaskName::new(String::from("b")), line_task(vec![("x", "a")], false)),
                    (TaskName::new(String::from("c")), line_task(vec![("x", "b")], false)),
                ],
            },
        )],
        children: Vec::new(),
    }
}

fn index_of(lc: &LoadedComposition, tn: &str) -> usize {
    for (i, f) in lc.fulfillers.iter().enumerate() {
        if f.task.as_ref().unwrap().name.task_name.get() == tn {
            return i;
        }
    }
    panic!("task not found");
}

#[test]
fn ready_gate_counters_follow_the_release_pattern() {
    let mut a = Ready::new(true);
    let mut b = Ready::new(false);
    let mut c = Ready::new(false);
    // the entrypoint fires first, without any prerequisite having released
    assert!(a.load_prerequisite(c.current_state(), false));
    a.release();
    assert_eq!(a.current_state(), 1);
    assert!(b.load_prerequisite(a.current_state(), false));
    b.release();
    assert_eq!(b.current_state(), 2);
    assert!(c.load_prerequisite(b.current_state(), false));
    c.release();
    assert_eq!(c.current_state(), 3);
    // around the cycle again: states keep climbing, never reset
    assert!(a.load_prerequisite(c.current_state(), false));
    a.release();
    assert_eq!(a.current_state(), 4);
    // a self-edge is always satisfied
    let s = b.current_state();
    assert!(b.load_prerequisite(s, true));
}

#[test]
fn quit_counts_rendezvous_exactly_once() {
    let mut q = Quit::new(3);
    let mk = || Fulfiller {
        cease: false,
        error: false,
        children_chains: Vec::new(),
        done: Ready::new(false),
        prerequisites: Vec::new(),
        task: None,
    };
    let mut f1 = mk();
    let mut f2 = mk();
    let mut f3 = mk();
    assert!(!q.cease_fulfiller(&mut f1));
    assert!(!q.cease_fulfiller(&mut f2));
    assert!(q.cease_fulfiller(&mut f3), "only the last cease rendezvouses");
    assert!(f1.cease && f2.cease && f3.cease);
    // reset restores the active count to the nominal count
    assert_eq!(q.reset(), 3);
    assert_eq!(q.active_value(), 3);
    // an errored fulfiller leaves the nominal count for later ticks
    q.record_error();
    assert_eq!(q.reset(), 2);
    assert_eq!(q.active_value(), 2);
    q.begin_fulfillers(2);
    assert_eq!(q.active_value(), 4);
    q.begin_fulfillers(-1);
    assert_eq!(q.active_value(), 3);
}

#[test]
fn a_clean_tick_runs_every_task_once_and_rendezvouses() {
    let c = triangle();
    let checked = LoadedComposition::check(&c).unwrap();
    let mut lc = LoadedComposition::new(&c, &checked, 0);
    let n = lc.fulfillers.len();
    let handlers = vec![false; n];
    let a = index_of(&lc, "a");
    let b = index_of(&lc, "b");
    let cc = index_of(&lc, "c");
    // b and c may not fire before their prerequisites
    assert!(!lc.prerequisites_complete(b));
    assert!(!lc.prerequisites_complete(cc));
    assert!(lc.prerequisites_complete(a), "the entrypoint fires unprompted");
    // each task ends its turn by ceasing through a stop-this outcome, so
    // the tick terminates; handlers keep the peers running
    lc.run_task(a, TaskControlFlow::StopThis, &handlers);
    assert!(lc.fulfillers[a].done.current_state() >= 1);
    assert!(lc.prerequisites_complete(b));
    lc.run_task(b, TaskControlFlow::StopThis, &handlers);
    assert!(lc.prerequisites_complete(cc));
    let rendezvous = lc.run_task(cc, TaskControlFlow::StopThis, &handlers);
    assert!(rendezvous, "the last active fulfiller releases the main thread");
    assert_eq!(lc.task_completion.active_value(), 0);
    assert!(lc.fulfillers[cc].done.current_state() >= lc.fulfillers[b].done.current_state());
    // no one errored, so the next tick expects everyone again
    assert_eq!(lc.prepare_next_tick(), 3);
    assert_eq!(lc.task_completion.active_value(), 3);
    assert!(matches!(lc.control_flow, InstanceControlFlow::Continue));
}

#[test]
fn stop_all_ceases_every_fulfiller() {
    let c = triangle();
    let checked = LoadedComposition::check(&c).unwrap();
    let mut lc = LoadedComposition::new(&c, &checked, 0);
    let handlers = vec![false; 3];
    let a = index_of(&lc, "a");
    assert!(lc.prerequisites_complete(a));
    let rendezvous = lc.run_task(a, TaskControlFlow::StopAll, &handlers);
    assert!(rendezvous);
    assert!(lc.fulfillers.iter().all(|f| f.cease));
    assert!(matches!(lc.control_flow, InstanceControlFlow::Stop));
}

#[test]
fn stop_this_consults_the_peer_handlers() {
    let c = triangle();
    let checked = LoadedComposition::check(&c).unwrap();
    let mut lc = LoadedComposition::new(&c, &checked, 0);
    let a = index_of(&lc, "a");
    let b = index_of(&lc, "b");
    let cc = index_of(&lc, "c");
    let mut handlers = vec![false; 3];
    handlers[b] = true;  // b's plugin chooses to stop with a
    assert!(lc.prerequisites_complete(a));
    lc.run_task(a, TaskControlFlow::StopThis, &handlers);
    assert!(lc.fulfillers[a].cease, "the stopping task itself ceases");
    assert!(lc.fulfillers[b].cease, "a peer whose handler said stop ceases");
    assert!(!lc.fulfillers[cc].cease, "an indifferent peer keeps running");
    assert!(matches!(lc.control_flow, InstanceControlFlow::Continue));
}

#[test]
fn panic_recovery_keeps_the_errored_task_ceased() {
    let c = triangle();
    let checked = LoadedComposition::check(&c).unwrap();
    let mut lc = LoadedComposition::new(&c, &checked, 0);
    let handlers = vec![false; 3];
    let a = index_of(&lc, "a");
    let b = index_of(&lc, "b");
    assert!(lc.prerequisites_complete(a));
    let outcome = TaskControlFlow::Failed(TaskError {
        is_panic: true,
        message: String::from("worker died"),
    });
    let rendezvous = lc.run_task(a, outcome, &handlers);
    assert!(rendezvous, "a panic ceases everyone, ending the tick");
    assert!(matches!(lc.control_flow, InstanceControlFlow::RecreateThreadpool));
    assert!(lc.fulfillers[a].error);
    assert!(lc.fulfillers.iter().all(|f| f.cease), "peers observe cease semantics");
    // downstream tasks in the chain skip their closures while ceased
    // tick boundary: fresh pool, errored task sits out, the rest reset
    assert_eq!(lc.prepare_next_tick(), 2);
    lc.clear_ceases_for_recreate();
    assert!(lc.fulfillers[a].cease, "the errored task stays ceased");
    assert!(!lc.fulfillers[b].cease, "an error-free task runs again");
    assert_eq!(lc.task_completion.active_value(), 2);
}

#[test]
fn plain_error_ceases_only_the_failing_task() {
    let c = triangle();
    let checked = LoadedComposition::check(&c).unwrap();
    let mut lc = LoadedComposition::new(&c, &checked, 0);
    let handlers = vec![false; 3];
    let a = index_of(&lc, "a");
    let b = index_of(&lc, "b");
    assert!(lc.prerequisites_complete(a));
    let nominal_before = lc.task_completion.nominal_value();
    let outcome = TaskControlFlow::Failed(TaskError {
        is_panic: false,
        message: String::from("bad input"),
    });
    lc.run_task(a, outcome, &handlers);
    assert!(lc.fulfillers[a].cease && lc.fulfillers[a].error);
    assert!(!lc.fulfillers[b].cease);
    assert_eq!(lc.task_completion.nominal_value(), nominal_before - 1);
    assert!(matches!(lc.control_flow, InstanceControlFlow::Continue));
}

fn getter_fixture() -> DatachunkGetter {
    let table = vec![(
        CrateName::new(String::from("x")),
        LoadedCrate {
            datachunks: vec![(
                DatachunkName::new(String::from("d")),
                Some(LoadedDatachunk::new(String::from("K"), 7)),
            )],
            tasks: Vec::new(),
        },
    )];
    let accesses = vec![
        Access {
            of: FullDatachunkName::new(String::from("x"), String::from("d")),
            mut_immut: AccessType::ImmutableAccess,
        },
        Access {
            of: FullDatachunkName::new(String::from("zz"), String::from("d")),
            mut_immut: AccessType::MutableAccess,
        },
        Access {
            of: FullDatachunkName::new(String::from("x"), String::from("missing")),
            mut_immut: AccessType::MutableAccess,
        },
    ];
    DatachunkGetter::new(table, accesses)
}

#[test]
fn getter_grants_declared_shared_view() {
    let g = getter_fixture();
    let name = FullDatachunkName::new(String::from("x"), String::from("d"));
    match g.get_immut(&name, "K") {
        DatachunkGetterResult::Granted(w) => assert_eq!(w.token, 7),
        _ => panic!("a declared shared view is granted"),
    }
    let w = g.get_immut(&name, "K").or_panic();
    assert_eq!(w.token, 7);
}

#[test]
fn getter_refuses_undeclared_exclusive_view() {
    let g = getter_fixture();
    let name = FullDatachunkName::new(String::from("x"), String::from("d"));
    assert!(matches!(g.get_mut(&name, "K"), DatachunkGetterResult::NoMutableAccessAllowed));
    let other = FullDatachunkName::new(String::from("q"), String::from("d"));
    assert!(matches!(g.get_immut(&other, "K"), DatachunkGetterResult::NoImmutableAccessAllowed));
}

#[test]
fn getter_reports_missing_crates_datachunks_and_types() {
    let g = getter_fixture();
    let ghost_crate = FullDatachunkName::new(String::from("zz"), String::from("d"));
    assert!(matches!(g.get_mut(&ghost_crate, "K"), DatachunkGetterResult::CrateNotFound));
    let missing = FullDatachunkName::new(String::from("x"), String::from("missing"));
    assert!(matches!(g.get_mut(&missing, "K"), DatachunkGetterResult::DatachunkNotInCrate));
    let name = FullDatachunkName::new(String::from("x"), String::from("d"));
    assert!(matches!(g.get_immut(&name, "WRONG"), DatachunkGetterResult::WrongType));
}

#[test]
fn access_type_compatibility_table() {
    assert!(AccessType::ImmutableAccess.commensurable(&AccessType::ImmutableAccess));
    assert!(AccessType::ImmutableAccess.commensurable(&AccessType::MutableAccess));
    assert!(AccessType::MutableAccess.commensurable(&AccessType::ImmutableAccess));
    assert!(!AccessType::MutableAccess.commensurable(&AccessType::MutableAccess));
}

#[test]
fn ffi_result_round_trips_both_shapes() {
    let ok: Result<u32, String> = Ok(5);
    assert!(matches!(FFIResult::from_rust(ok), FFIResult::Success(5)));
    let err: Result<u32, String> = Err(String::from("no"));
    match FFIResult::from_rust(err) {
        FFIResult::Failure(e) => assert_eq!(e, "no"),
        _ => panic!("an error crosses as a failure"),
    }
    let back: Result<u32, String> = FFIResult::<u32, String>::Success(9).into_rust();
    assert_eq!(back, Ok(9));
    let back2: Result<u32, String> = FFIResult::<u32, String>::Failure(String::from("x")).into_rust();
    assert_eq!(back2, Err(String::from("x")));
}

#[test]
fn static_array_lookup_hits_and_misses() {
    let arr = UnloadedStaticArray::<&str, 2> { elems: [(3, "three"), (9, "nine")] };
    assert_eq!(*arr.get(&9).unwrap(), "nine");
    let missing = arr.get(&4);
    assert_eq!(missing.unwrap_err().offending_key, 4);
}

#[test]
fn shared_handle_clones_point_at_one_value() {
    let h = MutableArc::new(std::sync::Arc::new(41u32));
    let h2 = h.clone();
    assert_eq!(*h.get(), 41);
    assert_eq!(*h2.get(), 41);
}

#[test]
fn full_names_expose_their_parts() {
    let t = FullTaskName::new(String::from("cr"), String::from("ta"));
    assert_eq!(t.crate_name.get(), "cr");
    assert_eq!(t.task_name.get(), "ta");
    let d = FullDatachunkName::new(String::from("cr"), String::from("da"));
    assert_eq!(d.datachunk_name.get(), "da");
    assert!(t.clone() == t);
}

use custard::access::{Access, AccessType};
use custard::identify::{CrateName, CustardName, DatachunkName, FullDatachunkName, FullTaskName, TaskName};
use custard::loaded::LoadedComposition;
use custard::unloaded::{UnloadedComposition, UnloadedCrate, UnloadedDatachunk, UnloadedTask};
use custard::validator::CheckError;

fn task(
    parents: Vec<(&str, &str)>,
    accesses: Vec<((&str, &str), AccessType)>,
    entrypoint: bool,
) -> UnloadedTask {
    UnloadedTask {
        kind_name: String::from("k"),
        deserialize_path: String::from("p"),
        parents: parents
            .into_iter()
            .map(|(c, t)| FullTaskName::new(String::from(c), String::from(t)))
            .collect(),
        accesses: accesses
            .into_iter()
            .map(|((c, d), m)| Access {
                of: FullDatachunkName::new(String::from(c), String::from(d)),
                mut_immut: m,
            })
            .collect(),
        entrypoint,
    }
}

fn datachunk() -> UnloadedDatachunk {
    UnloadedDatachunk { kind_name: String::from("dk"), deserialize_path: String::from("dp") }
}

fn comp(crates: Vec<(&str, Vec<(&str, UnloadedDatachunk)>, Vec<(&str, UnloadedTask)>)>) -> UnloadedComposition {
    UnloadedComposition {
        crates: crates
            .into_iter()
            .map(|(name, dcs, tasks)| {
                (
                    CrateName::new(String::from(name)),
                    UnloadedCrate {
                        datachunks: dcs
                            .into_iter()
                            .map(|(dn, d)| (DatachunkName::new(String::from(dn)), d))
                            .collect(),
                        tasks: tasks
                            .into_iter()
                            .map(|(tn, t)| (TaskName::new(String::from(tn)), t))
                            .collect(),
                    },
                )
            })
            .collect(),
        children: Vec::new(),
    }
}

fn cyclic_diamond() -> UnloadedComposition {
    comp(vec![(
        "x",
        vec![],
        vec![
            ("a", task(vec![("x", "d")], vec![], true)),
            ("b", task(vec![("x", "a")], vec![], false)),
            ("c", task(vec![("x", "a")], vec![], false)),
            ("d", task(vec![("x", "b"), ("x", "c")], vec![], false)),
        ],
    )])
}

#[test]
fn diamond_validates_and_chains_partition_tasks() {
    let c = cyclic_diamond();
    let checked = LoadedComposition::check(&c).expect("the cyclic diamond validates");
    let chains = c.chain_name_lists();
    let mut seen: Vec<String> = Vec::new();
    for chain in &chains {
        assert!(!chain.is_empty());
        for name in chain {
            let label = format!("{}/{}", name.crate_name.get(), name.task_name.get());
            assert!(!seen.contains(&label), "task appears in two chains");
            seen.push(label);
        }
    }
    assert_eq!(seen.len(), 4, "every task appears in exactly one chain");
    let lc = LoadedComposition::new(&c, &checked, 0);
    assert_eq!(lc.fulfillers.len(), 4);
    assert_eq!(lc.fulfiller_chains.len(), chains.len());
}

#[test]
fn acyclic_diamond_is_rejected_as_not_in_cycle() {
    // without the back edge from the entrypoint, no task lies on a cycle
    let c = comp(vec![(
        "x",
        vec![],
        vec![
            ("a", task(vec![], vec![], true)),
            ("b", task(vec![("x", "a")], vec![], false)),
            ("c", task(vec![("x", "a")], vec![], false)),
            ("d", task(vec![("x", "b"), ("x", "c")], vec![], false)),
        ],
    )]);
    match LoadedComposition::check(&c) {
        Err(CheckError::NotInCycle(e)) => {
            assert_eq!(e.offending_task.crate_name.get(), "x");
        }
        _ => panic!("expected a not-in-cycle rejection"),
    }
}

#[test]
fn self_loop_with_entrypoint_is_accepted() {
    let c = comp(vec![("x", vec![], vec![("a", task(vec![("x", "a")], vec![], true))])]);
    assert!(LoadedComposition::check(&c).is_ok());
}

#[test]
fn self_loop_without_entrypoint_is_unreachable() {
    let c = comp(vec![("x", vec![], vec![("a", task(vec![("x", "a")], vec![], false))])]);
    match LoadedComposition::check(&c) {
        Err(CheckError::Unreachable(e)) => {
            assert_eq!(e.offending_task.task_name.get(), "a");
        }
        _ => panic!("expected an unreachable rejection"),
    }
}

#[test]
fn unreachable_task_beside_valid_entrypoint() {
    let c = comp(vec![(
        "x",
        vec![],
        vec![
            ("a", task(vec![("x", "a")], vec![], true)),
            ("b", task(vec![("x", "b")], vec![], false)),
        ],
    )]);
    match LoadedComposition::check(&c) {
        Err(CheckError::Unreachable(e)) => {
            assert_eq!(e.offending_task.task_name.get(), "b");
        }
        _ => panic!("expected an unreachable rejection"),
    }
}

#[test]
fn cross_crate_exclusive_overlap_is_rejected() {
    let c = comp(vec![
        (
            "x",
            vec![],
            vec![("t1", task(vec![("x", "t1")], vec![(("z", "d"), AccessType::MutableAccess)], true))],
        ),
        (
            "y",
            vec![],
            vec![("t2", task(vec![("y", "t2")], vec![(("z", "d"), AccessType::MutableAccess)], true))],
        ),
    ]);
    match LoadedComposition::check(&c) {
        Err(CheckError::Access(e)) => {
            assert_eq!(e.datachunk.datachunk_name.get(), "d");
            assert_ne!(e.task_a.crate_name.get(), e.task_b.crate_name.get());
        }
        _ => panic!("expected a cross-access rejection"),
    }
}

#[test]
fn shared_overlap_is_commensurable_and_accepted() {
    let c = comp(vec![
        (
            "x",
            vec![],
            vec![("t1", task(vec![("x", "t1")], vec![(("z", "d"), AccessType::MutableAccess)], true))],
        ),
        (
            "y",
            vec![],
            vec![("t2", task(vec![("y", "t2")], vec![(("z", "d"), AccessType::ImmutableAccess)], true))],
        ),
    ]);
    assert!(LoadedComposition::check(&c).is_ok());
}

#[test]
fn task_with_no_accesses_never_conflicts() {
    let c = comp(vec![
        (
            "x",
            vec![],
            vec![("t1", task(vec![("x", "t1")], vec![(("z", "d"), AccessType::MutableAccess)], true))],
        ),
        ("y", vec![], vec![("t2", task(vec![("y", "t2")], vec![], true))]),
    ]);
    assert!(LoadedComposition::check(&c).is_ok());
}

#[test]
fn zero_task_crate_produces_zero_chains() {
    let c = comp(vec![("x", vec![("d0", datachunk())], vec![])]);
    let checked = LoadedComposition::check(&c).expect("no task, nothing to reject");
    let lc = LoadedComposition::new(&c, &checked, 0);
    assert_eq!(lc.fulfiller_chains.len(), 0);
    assert_eq!(lc.fulfillers.len(), 0);
    assert_eq!(lc.task_completion.active_value(), 0);
}

#[test]
fn serialize_then_parse_returns_the_composition() {
    let mut c = cyclic_diamond();
    c.children.push(CrateName::new(String::from("child:with,odd 1234:chars")));
    let text = c.serialize_composition();
    let back = UnloadedComposition::parse_composition(text.as_str())
        .expect("its own serialization parses");
    assert_eq!(back.crates.len(), c.crates.len());
    for (i, (name, cr)) in c.crates.iter().enumerate() {
        assert_eq!(back.crates[i].0.get(), name.get());
        assert!(&back.crates[i].1 == cr);
    }
    assert_eq!(back.children.len(), c.children.len());
    assert_eq!(back.children[0].get(), c.children[0].get());
}

#[test]
fn parse_rejects_malformed_and_trailing_text() {
    assert!(UnloadedComposition::parse_composition("").is_none());
    assert!(UnloadedComposition::parse_composition("hello").is_none());
    let c = cyclic_diamond();
    let mut text = c.serialize_composition();
    text.push('x');
    assert!(UnloadedComposition::parse_composition(text.as_str()).is_none());
}

#[test]
fn partial_reload_preserves_unchanged_crate_objects() {
    let old_u = comp(vec![
        ("x", vec![("dx", datachunk())], vec![("tx", task(vec![("x", "tx")], vec![], true))]),
        ("y", vec![("dy", datachunk())], vec![("ty", task(vec![("y", "ty")], vec![], true))]),
    ]);
    let checked = LoadedComposition::check(&old_u).unwrap();
    let lc1 = LoadedComposition::new(&old_u, &checked, 0);
    // edit y's task list: its deserialize path changes
    let mut new_task_y = task(vec![("y", "ty")], vec![], true);
    new_task_y.deserialize_path = String::from("elsewhere");
    let new_u = comp(vec![
        ("x", vec![("dx", datachunk())], vec![("tx", task(vec![("x", "tx")], vec![], true))]),
        ("y", vec![("dy", datachunk())], vec![("ty", new_task_y)]),
    ]);
    let checked2 = LoadedComposition::check(&new_u).unwrap();
    let bag = lc1.extract_baggage(&old_u, &new_u, &Vec::new());
    let start = lc1.next_token;
    let lc2 = LoadedComposition::new_with_baggage(&new_u, &checked2, bag, start);

    let token_of = |lc: &LoadedComposition, cn: &str, tn: &str| -> u64 {
        for f in &lc.fulfillers {
            let t = f.task.as_ref().unwrap();
            if t.name.crate_name.get() == cn && t.name.task_name.get() == tn {
                return t.token;
            }
        }
        panic!("task not found");
    };
    let dc_token_of = |lc: &LoadedComposition, cn: &str, dn: &str| -> u64 {
        for (name, cr) in &lc.crates {
            if name.get() == cn {
                for (d, v) in &cr.datachunks {
                    if d.get() == dn {
                        return v.as_ref().unwrap().token;
                    }
                }
            }
        }
        panic!("datachunk not found");
    };
    // x's objects keep their identity; y's are fresh
    assert_eq!(token_of(&lc2, "x", "tx"), token_of(&lc1, "x", "tx"));
    assert_eq!(dc_token_of(&lc2, "x", "dx"), dc_token_of(&lc1, "x", "dx"));
    assert!(token_of(&lc2, "y", "ty") >= start);
    assert!(dc_token_of(&lc2, "y", "dy") >= start);
}

#[test]
fn explicit_reload_request_refreshes_even_unchanged_crates() {
    let u = comp(vec![
        ("x", vec![], vec![("tx", task(vec![("x", "tx")], vec![], true))]),
    ]);
    let checked = LoadedComposition::check(&u).unwrap();
    let lc1 = LoadedComposition::new(&u, &checked, 0);
    let rfs = vec![CrateName::new(String::from("x"))];
    let bag = lc1.extract_baggage(&u, &u, &rfs);
    assert!(bag.tasks.is_empty());
    assert!(bag.datachunks.is_empty());
}

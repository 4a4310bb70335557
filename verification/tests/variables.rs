use bite::variables::{ContextStack, ContextType, Variable, VariableError};

#[test]
fn bind_and_find() {
    let mut stack = ContextStack::new();
    assert!(stack.find_variable("X").is_none());
    {
        let v = stack.bind_variable("X", "1").unwrap();
        assert_eq!(v.as_str(), "1");
        assert!(v.is_writeable());
        assert!(!v.is_exported());
    }
    assert_eq!(stack.variable_as_str("X").unwrap(), "1");
    stack.bind_variable("X", "2").unwrap();
    assert_eq!(stack.find_variable("X").unwrap().as_string(), "2");
}

#[test]
fn read_only_variable_refuses_binding() {
    let mut stack = ContextStack::new();
    stack.bind_variable("RO", "a").unwrap().set_readonly(true);
    match stack.bind_variable("RO", "b") {
        Err(VariableError::VariableIsReadOnly(name)) => assert_eq!(name, "RO"),
        _ => panic!("binding a read-only variable must fail"),
    }
    assert_eq!(stack.variable_as_str("RO").unwrap(), "a");
    assert!(stack.find_variable("RO").unwrap().is_readonly());
}

#[test]
fn unknown_variable() {
    let stack = ContextStack::new();
    match stack.variable_as_str("NOPE") {
        Err(VariableError::UnknownVariable(name)) => assert_eq!(name, "NOPE"),
        _ => panic!("an unknown variable must be reported"),
    }
}

#[test]
fn temp_context_shadows_and_drops() {
    let mut stack = ContextStack::new();
    stack.bind_variable("A", "global").unwrap();
    {
        let temp = stack.create_temp_context();
        assert!(temp.is_temp());
        temp.bind_variable("A", "temp").unwrap();
        temp.bind_variable("B", "only temp").unwrap();
    }
    assert_eq!(stack.variable_as_str("A").unwrap(), "temp");
    // A name that the temporary frame holds is bound there
    stack.bind_variable("B", "changed").unwrap();
    assert_eq!(stack.variable_as_str("B").unwrap(), "changed");
    // A second request gives the same temporary frame
    assert!(stack.create_temp_context().has_variable("B"));
    stack.drop_temp_context();
    assert_eq!(stack.variable_as_str("A").unwrap(), "global");
    assert!(stack.find_variable("B").is_none());
}

#[test]
fn iterate_top_frame_first() {
    let mut stack = ContextStack::new();
    stack.bind_variable("G", "1").unwrap();
    stack.create_temp_context().bind_variable("T", "2").unwrap();
    let names: Vec<&String> = stack.iter().iter().map(|(n, _)| *n).collect();
    assert_eq!(names, vec!["T", "G"]);
}

#[test]
fn import_exports_variables() {
    let mut stack = ContextStack::new();
    let pairs = vec![("HOME".to_string(), "/home/u".to_string()), ("TERM".to_string(), "xterm".to_string())];
    assert!(stack.import_variables(&pairs).is_ok());
    assert!(stack.find_variable("HOME").unwrap().is_exported());
    assert_eq!(
        stack.iter_exported(),
        vec![("HOME".to_string(), "/home/u".to_string()), ("TERM".to_string(), "xterm".to_string())]
    );
}

#[test]
fn find_or_create_global() {
    let mut stack = ContextStack::new();
    {
        let v = stack.find_variable_or_create_global("N").unwrap();
        assert_eq!(v.as_str(), "");
        v.set_value("x");
    }
    assert_eq!(stack.variable_as_str("N").unwrap(), "x");
    let g = stack.get_global_context().unwrap();
    assert!(g.has_variable("N"));
    assert!(!g.is_temp());
}

#[test]
fn declaration_line() {
    let mut v = Variable::new_scalar_string("v a");
    assert_eq!(v.print_for_builtins("X"), "declare  X=\"v a\"\n");
    v.set_readonly(true);
    v.set_exported(true);
    assert_eq!(v.print_for_builtins("X"), "declare -rx X=\"v a\"\n");
    v.set_invisible();
    v.set_visible();
    assert_eq!(v.as_string(), "v a");
}

#[test]
fn find_variable_mut_changes_topmost() {
    let mut stack = ContextStack::new();
    stack.bind_variable("V", "old").unwrap();
    stack.find_variable_mut("V").unwrap().set_exported(true);
    assert!(stack.find_variable("V").unwrap().is_exported());
    assert!(stack.find_variable_mut("W").is_none());
    let _ = ContextType::Function;
}

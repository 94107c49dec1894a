use checker_rs::checker::{exec_checker_from_bytes, exec_from_bytes, Checker, ExecError};

#[test]
fn test_executing_fail() {
    let wat = r#"
        (module
          (import "checker" "fail" (func $fail (param i32 i32)))
          (memory (export "memory") 1)
          (data (i32.const 0) "This checker always fail")
          (func (export "check")
            (call $fail (i32.const 0) (i32.const 24))))
    "#;
    let checker = exec_checker_from_bytes(wat.as_bytes(), "check", Vec::new()).unwrap();
    assert_eq!("This checker always fail", checker.failures.get(0).unwrap());
    assert!(checker.success.is_empty());
}

#[test]
fn test_executing_succeeds() {
    let wat = r#"
        (module
          (import "checker" "succeed" (func $succeed (param i32 i32)))
          (memory (export "memory") 1)
          (data (i32.const 0) "This checker always succeed")
          (func (export "check")
            (call $succeed (i32.const 0) (i32.const 27))))
    "#;
    let checker = exec_checker_from_bytes(wat.as_bytes(), "check", Vec::new()).unwrap();
    assert_eq!("This checker always succeed", checker.success.get(0).unwrap());
    assert!(checker.failures.is_empty());
}

#[test]
fn guest_reads_registered_dataset_back() {
    // The guest resolves the dataset, skips the one-digit length prefix, and
    // reports the payload bytes as its success message.
    let wat = r#"
        (module
          (import "checker" "succeed" (func $succeed (param i32 i32)))
          (import "checker" "datasets" (func $datasets (param i32 i32) (result i32 i32)))
          (memory (export "memory") 1)
          (data (i32.const 0) "test")
          (func (export "check") (local $off i32) (local $size i32)
            (call $datasets (i32.const 0) (i32.const 4))
            local.set $size
            local.set $off
            (call $succeed
              (i32.add (local.get $off) (i32.const 1))
              (i32.sub (local.get $size) (i32.const 1)))))
    "#;
    let datasets = vec![("test".to_string(), "hello".to_string())];
    let checker = exec_checker_from_bytes(wat.as_bytes(), "check", datasets).unwrap();
    assert_eq!("hello", checker.success.get(0).unwrap());
}

#[test]
fn guest_reads_long_dataset_with_two_digit_prefix() {
    let wat = r#"
        (module
          (import "checker" "succeed" (func $succeed (param i32 i32)))
          (import "checker" "datasets" (func $datasets (param i32 i32) (result i32 i32)))
          (memory (export "memory") 1)
          (data (i32.const 0) "test")
          (func (export "check") (local $off i32) (local $size i32)
            (call $datasets (i32.const 0) (i32.const 4))
            local.set $size
            local.set $off
            (call $succeed
              (i32.add (local.get $off) (i32.const 2))
              (i32.sub (local.get $size) (i32.const 2)))))
    "#;
    let content = "123,456,678,10,12,12";
    let datasets = vec![("test".to_string(), content.to_string())];
    let checker = exec_checker_from_bytes(wat.as_bytes(), "check", datasets).unwrap();
    assert_eq!(content, checker.success.get(0).unwrap());
}

#[test]
fn missing_dataset_traps_and_keeps_recorded_state() {
    let wat = r#"
        (module
          (import "checker" "succeed" (func $succeed (param i32 i32)))
          (import "checker" "datasets" (func $datasets (param i32 i32) (result i32 i32)))
          (memory (export "memory") 1)
          (data (i32.const 0) "okmissing")
          (func (export "check")
            (call $succeed (i32.const 0) (i32.const 2))
            (call $datasets (i32.const 2) (i32.const 7))
            drop
            drop))
    "#;
    let r = exec_checker_from_bytes(wat.as_bytes(), "check", Vec::new());
    match r {
        Err(ExecError::TrapError(message, state)) => {
            assert!(message.contains("no dataset with that name"), "message: {message}");
            assert_eq!(state.success, vec!["ok".to_string()]);
            assert!(state.failures.is_empty());
        }
        other => panic!("expected a trap, got {other:?}"),
    }
}

#[test]
fn out_of_bounds_pointer_traps() {
    let wat = r#"
        (module
          (import "checker" "fail" (func $fail (param i32 i32)))
          (memory (export "memory") 1)
          (func (export "check")
            (call $fail (i32.const 196608) (i32.const 4))))
    "#;
    let r = exec_checker_from_bytes(wat.as_bytes(), "check", Vec::new());
    match r {
        Err(ExecError::TrapError(message, _)) => {
            assert!(message.contains("pointer/length out of bounds"), "message: {message}");
        }
        other => panic!("expected a trap, got {other:?}"),
    }
}

#[test]
fn invalid_utf8_message_traps() {
    let wat = r#"
        (module
          (import "checker" "fail" (func $fail (param i32 i32)))
          (memory (export "memory") 1)
          (data (i32.const 0) "\ff\fe")
          (func (export "check")
            (call $fail (i32.const 0) (i32.const 2))))
    "#;
    let r = exec_checker_from_bytes(wat.as_bytes(), "check", Vec::new());
    match r {
        Err(ExecError::TrapError(message, _)) => {
            assert!(message.contains("invalid utf-8"), "message: {message}");
        }
        other => panic!("expected a trap, got {other:?}"),
    }
}

#[test]
fn malformed_module_is_a_compile_error() {
    let r = exec_checker_from_bytes(b"(module (this is not wasm", "check", Vec::new());
    assert!(matches!(r, Err(ExecError::CompileError(_))));
}

#[test]
fn dataset_write_without_memory_export_is_an_allocation_error() {
    let wat = "(module (func (export \"check\")))";
    let datasets = vec![("test".to_string(), "hello".to_string())];
    let r = exec_checker_from_bytes(wat.as_bytes(), "check", datasets);
    match r {
        Err(ExecError::AllocationError(message)) => {
            assert!(message.contains("memory"), "message: {message}");
        }
        other => panic!("expected an allocation error, got {other:?}"),
    }
}

#[test]
fn empty_mapping_runs_to_completion_with_empty_state() {
    let wat = "(module (memory (export \"memory\") 1) (func (export \"check\")))";
    let checker = exec_checker_from_bytes(wat.as_bytes(), "check", Vec::new()).unwrap();
    assert!(checker.failures.is_empty());
    assert!(checker.success.is_empty());
}

#[test]
fn execution_appends_to_a_caller_supplied_state() {
    let wat = r#"
        (module
          (import "checker" "succeed" (func $succeed (param i32 i32)))
          (memory (export "memory") 1)
          (data (i32.const 0) "post")
          (func (export "check")
            (call $succeed (i32.const 0) (i32.const 4))))
    "#;
    let mut seeded = Checker::new();
    seeded.record_success("pre".to_string());
    let checker = exec_from_bytes(wat.as_bytes(), "check", Vec::new(), seeded).unwrap();
    assert_eq!(checker.success, vec!["pre".to_string(), "post".to_string()]);
}

#[test]
fn missing_entry_function_is_reported() {
    let wat = "(module (memory (export \"memory\") 1))";
    let r = exec_checker_from_bytes(wat.as_bytes(), "check", Vec::new());
    assert!(matches!(r, Err(ExecError::TrapError(_, _))));
}

use keel::agent::capacity::{memory_size, sysctl_value, SysctlOutput, CPU_VARIABLE, MEMORY_VARIABLE};

fn output(success: bool, status: &str, stdout: &[u8]) -> Result<SysctlOutput, String> {
    Ok(SysctlOutput { success, status: status.to_string(), stdout: stdout.to_vec() })
}

#[test]
fn the_value_of_a_variable_is_trimmed() {
    assert_eq!(sysctl_value(CPU_VARIABLE, output(true, "exit status: 0", b" 8\n")), Ok("8".to_string()));
    assert_eq!(sysctl_value(CPU_VARIABLE, output(true, "exit status: 0", b"")), Ok(String::new()));
    assert_eq!(sysctl_value(CPU_VARIABLE, output(true, "", b"a\xffb ")), Ok("a\u{fffd}b".to_string()));
}

#[test]
fn a_variable_that_cannot_be_read_is_named() {
    assert_eq!(
        sysctl_value(CPU_VARIABLE, output(false, "exit status: 1", b"8")),
        Err("sysctl -n hw.ncpu exited with exit status: 1".to_string())
    );
    assert_eq!(
        sysctl_value(MEMORY_VARIABLE, Err("not found".to_string())),
        Err("failed to run sysctl -n hw.physmem: not found".to_string())
    );
}

#[test]
fn the_memory_is_a_number() {
    assert_eq!(memory_size("17179869184"), Ok(17_179_869_184));
    assert_eq!(
        memory_size("lots"),
        Err("invalid hw.physmem value: invalid digit found in string".to_string())
    );
    assert_eq!(
        memory_size(""),
        Err("invalid hw.physmem value: cannot parse integer from empty string".to_string())
    );
}

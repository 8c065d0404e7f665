use asm_compiler::build_args::{add_cargo_prove_build_args, BuildArgs};

fn base_args() -> BuildArgs {
    BuildArgs {
        docker: false,
        ignore_rust_version: false,
        binary: None,
        elf: None,
        features: vec![],
    }
}

#[test]
fn no_flags_for_default_arguments() {
    let mut cmd = vec!["prove".to_string(), "build".to_string()];
    add_cargo_prove_build_args(&mut cmd, base_args(), false);
    assert_eq!(cmd, vec!["prove".to_string(), "build".to_string()]);
}

#[test]
fn all_flags_in_order() {
    let mut cmd: Vec<String> = vec![];
    let args = BuildArgs {
        docker: true,
        ignore_rust_version: true,
        binary: Some("guest".to_string()),
        elf: Some("guest.elf".to_string()),
        features: vec!["fast".to_string(), "debug".to_string()],
    };
    add_cargo_prove_build_args(&mut cmd, args, false);
    assert_eq!(
        cmd,
        vec![
            "--docker".to_string(),
            "--ignore-rust-version".to_string(),
            "--features".to_string(),
            "fast".to_string(),
            "--features".to_string(),
            "debug".to_string(),
            "--binary".to_string(),
            "guest".to_string(),
            "--elf".to_string(),
            "guest.elf".to_string(),
        ]
    );
}

#[test]
fn docker_flag_suppressed_when_ignored() {
    let mut cmd: Vec<String> = vec![];
    let mut args = base_args();
    args.docker = true;
    add_cargo_prove_build_args(&mut cmd, args, true);
    assert!(cmd.is_empty());
}

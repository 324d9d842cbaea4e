use multimoon::global::{arch, core_backups_path, global, init, moon_executable_name, Cpu, GlobalError, GlobalInfo, Os, Platform};

fn info(multimoonhome: &str) -> GlobalInfo {
    GlobalInfo {
        home: "/home/u".to_string(),
        moonhome: "/home/u/.moon".to_string(),
        multimoonhome: multimoonhome.to_string(),
        registry: "https://example.com/".to_string(),
        verbose: false,
    }
}

#[test]
fn architecture_tags() {
    assert_eq!(arch(Platform { os: Os::Macos, cpu: Cpu::Aarch64 }), Some("macos_aarch64"));
    assert_eq!(arch(Platform { os: Os::Macos, cpu: Cpu::X86_64 }), Some("macos_amd64"));
    assert_eq!(arch(Platform { os: Os::Linux, cpu: Cpu::X86_64 }), Some("ubuntu_amd64"));
    assert_eq!(arch(Platform { os: Os::Windows, cpu: Cpu::X86_64 }), Some("windows_x64"));
    assert_eq!(arch(Platform { os: Os::Linux, cpu: Cpu::Aarch64 }), None);
    assert_eq!(arch(Platform { os: Os::Other, cpu: Cpu::X86_64 }), None);
}

#[test]
fn executable_names() {
    assert_eq!(moon_executable_name(Platform { os: Os::Windows, cpu: Cpu::X86_64 }), Some("moon.exe"));
    assert_eq!(moon_executable_name(Platform { os: Os::Linux, cpu: Cpu::X86_64 }), Some("moon"));
    assert_eq!(moon_executable_name(Platform { os: Os::Macos, cpu: Cpu::Aarch64 }), Some("moon"));
    assert_eq!(moon_executable_name(Platform { os: Os::Linux, cpu: Cpu::Other }), None);
}

#[test]
fn init_only_once() {
    let mut slot = None;
    assert_eq!(init(&mut slot, info("/a")), Ok(()));
    assert_eq!(global(&slot).multimoonhome, "/a");
    assert_eq!(init(&mut slot, info("/b")), Err(GlobalError::DuplicateInit));
    assert_eq!(global(&slot).multimoonhome, "/a");
}

#[test]
fn backups_directory() {
    assert_eq!(core_backups_path(&info("/home/u/.multimoon")), "/home/u/.multimoon/core-backups");
    assert_eq!(core_backups_path(&info("/home/u/.multimoon/")), "/home/u/.multimoon/core-backups");
}

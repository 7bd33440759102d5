use fsbridge::device::{
    device_id_result, device_id_step, last_filled_line, platform_of, profiler_uuid, DeviceOutcome,
    DeviceStep, Platform,
};
use fsbridge::error::FsError;

const PROFILER_REPORT: &str = "Hardware:\n\n    Hardware Overview:\n\n      Model Name: MacBook Pro\n      Serial Number (system): C02XYZ\n      Hardware UUID: 12345678-ABCD-EF01-2345-6789ABCDEF01\n      Provisioning UDID: 0000\n";

const QUERY_REPORT: &str = "UUID                                  \r\r\n4C4C4544-0042-3510-8052-B4C04F4E4D32  \r\r\n\r\r\n";

fn exited(text: &str) -> DeviceOutcome {
    DeviceOutcome::Exited { success: true, stdout: text.as_bytes().to_vec() }
}

#[test]
fn platform_names() {
    assert_eq!(platform_of("linux"), Platform::Linux);
    assert_eq!(platform_of("macos"), Platform::MacOs);
    assert_eq!(platform_of("windows"), Platform::Windows);
    assert_eq!(platform_of("freebsd"), Platform::Unsupported);
    assert_eq!(platform_of(""), Platform::Unsupported);
}

#[test]
fn unsupported_platform_runs_no_program() {
    let mut spawned = 0;
    let step = device_id_step(Platform::Unsupported);
    if let DeviceStep::Run { .. } = step {
        spawned += 1;
    }
    assert_eq!(spawned, 0);
    assert_eq!(step, DeviceStep::Fail { error: FsError::UnsupportedPlatform });
    assert_eq!(
        device_id_result(Platform::Unsupported, &DeviceOutcome::SpawnFailed),
        Err(FsError::UnsupportedPlatform)
    );
}

#[test]
fn steps_of_each_platform() {
    assert_eq!(
        device_id_step(Platform::Linux),
        DeviceStep::ReadFile { path: "/etc/machine-id".to_string() }
    );
    assert_eq!(
        device_id_step(Platform::MacOs),
        DeviceStep::Run {
            program: "system_profiler".to_string(),
            args: vec!["SPHardwareDataType".to_string()]
        }
    );
    assert_eq!(
        device_id_step(Platform::Windows),
        DeviceStep::Run {
            program: "wmic".to_string(),
            args: vec!["csproduct".to_string(), "get".to_string(), "uuid".to_string()]
        }
    );
}

#[test]
fn machine_id_file_is_trimmed() {
    let outcome = DeviceOutcome::FileContents { contents: Some("  0123abcd\n".to_string()) };
    assert_eq!(device_id_result(Platform::Linux, &outcome), Ok("0123abcd".to_string()));
}

#[test]
fn unreadable_machine_id_file() {
    let outcome = DeviceOutcome::FileContents { contents: None };
    assert_eq!(device_id_result(Platform::Linux, &outcome), Err(FsError::IoError));
}

#[test]
fn profiler_report_gives_uuid() {
    assert_eq!(
        device_id_result(Platform::MacOs, &exited(PROFILER_REPORT)),
        Ok("12345678-ABCD-EF01-2345-6789ABCDEF01".to_string())
    );
    assert_eq!(
        profiler_uuid("Hardware UUID: a:b\n"),
        Some("a:b".to_string())
    );
}

#[test]
fn profiler_report_without_uuid() {
    assert_eq!(
        device_id_result(Platform::MacOs, &exited("Hardware:\n  Model Name: X\n")),
        Err(FsError::ParseError)
    );
    assert_eq!(profiler_uuid("Hardware UUID missing colon\n"), None);
}

#[test]
fn profiler_failures() {
    assert_eq!(device_id_result(Platform::MacOs, &DeviceOutcome::SpawnFailed), Err(FsError::IoError));
    let failed = DeviceOutcome::Exited { success: false, stdout: PROFILER_REPORT.as_bytes().to_vec() };
    assert_eq!(device_id_result(Platform::MacOs, &failed), Err(FsError::IoError));
}

#[test]
fn query_report_gives_last_line() {
    assert_eq!(
        device_id_result(Platform::Windows, &exited(QUERY_REPORT)),
        Ok("4C4C4544-0042-3510-8052-B4C04F4E4D32".to_string())
    );
    assert_eq!(last_filled_line("a\nb\n\n  \n"), Some("b".to_string()));
}

#[test]
fn query_report_empty() {
    assert_eq!(device_id_result(Platform::Windows, &exited(" \r\n\n")), Err(FsError::ParseError));
    assert_eq!(last_filled_line(""), None);
}

#[test]
fn query_report_not_text() {
    let outcome = DeviceOutcome::Exited { success: true, stdout: vec![0x55, 0xff, 0xfe] };
    assert_eq!(device_id_result(Platform::Windows, &outcome), Err(FsError::InvalidEncoding));
}

#[test]
fn profiler_report_with_stray_byte_still_gives_uuid() {
    let mut stdout = b"Hardware:\n  Model Name: \xffX\n".to_vec();
    stdout.extend_from_slice(b"      Hardware UUID: ABCD-1234\n");
    let outcome = DeviceOutcome::Exited { success: true, stdout };
    assert_eq!(device_id_result(Platform::MacOs, &outcome), Ok("ABCD-1234".to_string()));
}

#[test]
fn profiler_report_not_text_without_uuid() {
    let outcome = DeviceOutcome::Exited { success: true, stdout: vec![0x55, 0xff, 0xfe, b'\n'] };
    assert_eq!(device_id_result(Platform::MacOs, &outcome), Err(FsError::ParseError));
}

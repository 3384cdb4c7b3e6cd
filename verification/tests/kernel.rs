use solnix::kernel_check::{check_core_support, version_from_release, CoreCheckError, KernelVersion};

#[test]
fn parses_full_release_string() {
    let v = KernelVersion::from_uname("5.10.134-18.0.9.lifsea8.x86_64").unwrap();
    assert_eq!(v, KernelVersion::new(5, 10, 134));
    assert!(v.is_core_supported());
    assert_eq!(v.to_display_string(), "5.10.134");
}

#[test]
fn old_kernel_is_refused() {
    let v = KernelVersion::new(4, 19, 0);
    match check_core_support(Ok(v), true) {
        Err(CoreCheckError::KernelTooOld { current, required }) => {
            assert_eq!(current, v);
            assert_eq!(required, KernelVersion::min_required());
        }
        _ => panic!("expected KernelTooOld"),
    }
}

#[test]
fn release_without_patch_defaults_to_zero() {
    assert_eq!(KernelVersion::from_uname("6.1"), Some(KernelVersion::new(6, 1, 0)));
    assert_eq!(KernelVersion::from_uname("6.1-rc3"), Some(KernelVersion::new(6, 1, 0)));
    assert_eq!(KernelVersion::from_uname("6.1-"), Some(KernelVersion::new(6, 1, 0)));
    assert_eq!(
        KernelVersion::from_uname("5.4.0-150-generic"),
        Some(KernelVersion::new(5, 4, 0))
    );
}

#[test]
fn releases_without_two_numbers_are_rejected() {
    assert_eq!(KernelVersion::from_uname(""), None);
    assert_eq!(KernelVersion::from_uname("linux"), None);
    assert_eq!(KernelVersion::from_uname("6"), None);
    assert_eq!(KernelVersion::from_uname("6..1"), None);
    assert_eq!(KernelVersion::from_uname("4294967296.1.0"), None);
    assert_eq!(
        KernelVersion::from_uname("4294967295.0.0"),
        Some(KernelVersion::new(4294967295, 0, 0))
    );
}

#[test]
fn version_text_reads_back() {
    for v in [
        KernelVersion::new(0, 0, 0),
        KernelVersion::new(5, 2, 0),
        KernelVersion::new(6, 12, 77),
        KernelVersion::new(4294967295, 4294967295, 4294967295),
    ] {
        let text = v.to_display_string();
        assert_eq!(KernelVersion::from_uname(&text), Some(v));
    }
}

#[test]
fn minimum_version_is_5_2_0() {
    let min = KernelVersion::min_required();
    assert_eq!(min, KernelVersion::new(5, 2, 0));
    assert!(min.is_core_supported());
    assert!(!KernelVersion::new(5, 1, 99).is_core_supported());
    assert!(KernelVersion::new(5, 2, 1).is_core_supported());
    assert!(KernelVersion::new(6, 0, 0).is_core_supported());
}

#[test]
fn version_parse_failure_names_the_release() {
    match version_from_release("weird") {
        Err(e) => assert_eq!(e, "Cannot parse kernel version from: 'weird'"),
        Ok(_) => panic!("expected an error"),
    }
    assert_eq!(version_from_release("6.8.0").unwrap(), KernelVersion::new(6, 8, 0));
}

#[test]
fn core_check_reports_each_failure() {
    match check_core_support(Err("no uname".to_string()), true) {
        Err(e @ CoreCheckError::VersionDetectionFailed(_)) => {
            assert_eq!(e.to_display_string(), "Cannot detect kernel version: no uname");
        }
        _ => panic!("expected VersionDetectionFailed"),
    }
    match check_core_support(Ok(KernelVersion::new(6, 1, 0)), false) {
        Err(e @ CoreCheckError::BtfMissing) => {
            assert!(e.to_display_string().starts_with("Kernel BTF not found at /sys/kernel/btf/vmlinux."));
        }
        _ => panic!("expected BtfMissing"),
    }
    assert!(check_core_support(Ok(KernelVersion::new(6, 1, 0)), true).is_ok());
    let old = check_core_support(Ok(KernelVersion::new(4, 19, 0)), false).unwrap_err();
    assert!(old
        .to_display_string()
        .starts_with("Kernel 4.19.0 does not support CO-RE.\nMinimum required: Linux 5.2.0\n"));
}

use taskmaster::platform::{null_device_path, Platform};
use taskmaster::signals::{install, InstallStep, SignalFlags, Source, SIGHUP, SIGINT, SIGTERM};

#[test]
fn sighup_requests_reload() {
    let mut returned: Vec<isize> = Vec::new();
    let mut handled = Vec::new();
    while let InstallStep::Handle(source) = install(Platform::Linux, &returned) {
        handled.push(source);
        returned.push(0);
    }
    assert_eq!(install(Platform::Linux, &returned), InstallStep::Done);
    assert!(handled.contains(&Source::Signal(1)));

    let mut flags = SignalFlags::new();
    flags.handle_signal(1);
    assert!(flags.take_reload());
    assert!(!flags.take_reload());
}

#[test]
fn interrupts_and_terminations_request_a_shutdown() {
    for signal in [SIGINT, SIGTERM] {
        let mut flags = SignalFlags::new();
        flags.handle_signal(SIGHUP);
        flags.handle_signal(signal);
        flags.handle_signal(99);
        assert!(flags.take_shutdown());
        assert!(!flags.take_shutdown());
        assert!(flags.take_reload());
    }
}

#[test]
fn console_events_request_a_shutdown() {
    for event in [0, 1, 2, 5, 6] {
        let mut flags = SignalFlags::new();
        assert_eq!(flags.handle_console_event(event), 1);
        assert!(flags.take_shutdown());
    }
    let mut flags = SignalFlags::new();
    assert_eq!(flags.handle_console_event(3), 0);
    assert!(!flags.take_shutdown());
}

#[test]
fn handlers_are_installed_in_order_until_one_fails() {
    let linux = Platform::Linux;
    assert_eq!(install(linux, &vec![]), InstallStep::Handle(Source::Signal(SIGHUP)));
    assert_eq!(install(linux, &vec![0]), InstallStep::Handle(Source::Signal(SIGINT)));
    assert_eq!(install(linux, &vec![0, 1]), InstallStep::Handle(Source::Signal(SIGTERM)));
    assert_eq!(install(linux, &vec![0, 1, 0]), InstallStep::Done);
    assert_eq!(install(linux, &vec![0, -1]), InstallStep::Failed);
    assert_eq!(install(Platform::Windows, &vec![]), InstallStep::Handle(Source::Console));
    assert_eq!(install(Platform::Windows, &vec![1]), InstallStep::Done);
    assert_eq!(install(Platform::Windows, &vec![0]), InstallStep::Failed);
    assert_eq!(install(Platform::Other, &vec![]), InstallStep::Done);
}

#[test]
fn platforms_differ_in_numbers_and_devices() {
    assert_eq!((Platform::Linux.sigusr1(), Platform::Linux.sigusr2()), (10, 12));
    assert_eq!((Platform::Bsd.sigusr1(), Platform::Bsd.sigusr2()), (30, 31));
    assert_eq!((Platform::Solaris.sigusr1(), Platform::Solaris.sigusr2()), (16, 17));
    assert_eq!((Platform::OtherUnix.sigusr1(), Platform::OtherUnix.sigusr2()), (10, 12));
    assert_eq!(null_device_path(Platform::Windows), "NUL");
    assert_eq!(null_device_path(Platform::Linux), "/dev/null");
    assert_eq!(null_device_path(Platform::Other), "/dev/null");
    assert!(Platform::Bsd.is_unix());
    assert!(!Platform::Windows.is_unix());
}

use alx::bind::{merge_bind, parse_bind_address, tailscale_address, tailscale_lines, BindTarget};
use alx::cli::{bind_of, run_serve, ServeAction, ServeCommand};
use alx::service::{
    argument_value, command_failure, configured_endpoint, contains_argument, install,
    launchd_plist, restart, server_endpoint, service_file_contents, service_file_path, status,
    systemd_quote, systemd_unit, uninstall, xml_escape, BaseDirectory, InstallOptions, Platform,
};

#[test]
fn reads_tailscale_and_bind_arguments_from_service_formats() {
    let plist = "<string>serve</string><string>--tailscale</string>";
    assert!(contains_argument(plist, "--tailscale"));

    let unit = "ExecStart=\"/usr/bin/alx\" \"serve\" \"--bind\" \"192.0.2.10:3000\"";
    assert_eq!(
        argument_value(unit, "--bind"),
        Some("192.0.2.10:3000".to_owned())
    );
}

#[test]
fn systemd_unit_runs_normal_server_without_secrets() {
    let unit = systemd_unit(
        "/home/example/bin/alx",
        &InstallOptions {
            bind: Some("192.168.1.10:3000".to_owned()),
            tailscale: false,
        },
        &vec![("ALX_DB".to_owned(), "/home/example/alx.db".to_owned())],
    );

    assert!(unit.contains(
        "ExecStart=\"/home/example/bin/alx\" \"serve\" \"--bind\" \"192.168.1.10:3000\""
    ));
    assert!(unit.contains("Restart=on-failure"));
    assert!(unit.contains("WantedBy=default.target"));
    assert!(unit.contains("Environment=\"ALX_DB=/home/example/alx.db\""));
    assert!(!unit.contains("password"));
}

#[test]
fn launchd_plist_runs_normal_server_without_secrets() {
    let plist = launchd_plist(
        "/Users/example/bin/alx",
        &InstallOptions {
            bind: Some("192.168.1.10:3000".to_owned()),
            tailscale: false,
        },
        &vec![],
    );
    assert!(plist.contains("<string>/Users/example/bin/alx</string>"));
    assert!(plist.contains("<string>serve</string>"));
    assert!(plist.contains("<string>--bind</string>"));
    assert!(plist.contains("<string>192.168.1.10:3000</string>"));
    assert!(plist.contains("<key>RunAtLoad</key>"));
    assert!(plist.contains("<key>KeepAlive</key>"));
    assert!(!plist.contains("password"));
}

#[test]
fn systemd_unit_defers_tailscale_lookup_to_server_start() {
    let unit = systemd_unit(
        "/home/example/bin/alx",
        &InstallOptions {
            bind: None,
            tailscale: true,
        },
        &vec![],
    );
    assert!(unit.contains("\"serve\" \"--tailscale\""));
    assert!(!unit.contains("tailscale ip"));
}

#[test]
fn whole_files_are_as_expected() {
    let environment = vec![("A".to_owned(), "b & \"c\"".to_owned())];
    let unit = systemd_unit("/bin/alx", &InstallOptions::default(), &environment);
    assert_eq!(
        unit,
        "[Unit]\nDescription=alx web service\nAfter=default.target\n\n[Service]\n\
         ExecStart=\"/bin/alx\" \"serve\"\nRestart=on-failure\nRestartSec=2\n\
         Environment=\"A=b & \\\"c\\\"\"\n\n[Install]\nWantedBy=default.target\n"
    );
    let plist = launchd_plist("/bin/alx", &InstallOptions::default(), &environment);
    assert_eq!(
        plist,
        "<?xml version=\"1.0\" encoding=\"UTF-8\"?>\n\
         <!DOCTYPE plist PUBLIC \"-//Apple//DTD PLIST 1.0//EN\" \
         \"http://www.apple.com/DTDs/PropertyList-1.0.dtd\">\n\
         <plist version=\"1.0\">\n<dict>\n  <key>Label</key>\n  <string>com.alx.serve</string>\n  \
         <key>ProgramArguments</key>\n  <array>\n    <string>/bin/alx</string>\n    \
         <string>serve</string>\n  </array>\n  <key>RunAtLoad</key>\n  <true/>\n  \
         <key>KeepAlive</key>\n  <true/>\n  <key>EnvironmentVariables</key>\n  <dict>\n    \
         <key>A</key>\n    <string>b &amp; &quot;c&quot;</string>\n  </dict>\n</dict>\n</plist>\n"
    );
    assert_eq!(
        service_file_contents(Platform::Linux, "/bin/alx", &InstallOptions::default(), &environment)
            .unwrap(),
        unit
    );
    assert_eq!(
        service_file_contents(Platform::Macos, "/bin/alx", &InstallOptions::default(), &environment)
            .unwrap(),
        plist
    );
    assert!(service_file_contents(
        Platform::Windows,
        "/bin/alx",
        &InstallOptions::default(),
        &environment
    )
    .is_err());
}

#[test]
fn quoting_escapes_what_has_a_meaning() {
    assert_eq!(
        systemd_quote("a\\b\"c\nd\re\tf$g%h\u{1}i\u{7f}j\u{85}"),
        "\"a\\\\b\\\"c\\nd\\re\\tf$$g%%h\\x01i\\x7fj\\x85\""
    );
    assert_eq!(xml_escape("<a href='x'>&\""), "&lt;a href=&apos;x&apos;&gt;&amp;&quot;");
}

#[test]
fn an_installed_service_is_read_back() {
    for platform in [Platform::Linux, Platform::Macos] {
        let contents = |bind: Option<&str>, tailscale: bool| {
            let options = InstallOptions {
                bind: bind.map(str::to_owned),
                tailscale,
            };
            service_file_contents(platform, "/usr/bin/alx", &options, &vec![]).unwrap()
        };
        let bound = contents(Some("[::1]:8080"), false);
        assert_eq!(argument_value(&bound, "--bind"), Some("[::1]:8080".to_owned()));
        assert_eq!(
            configured_endpoint(platform, Some(&bound), true).unwrap(),
            Some(BindTarget::Address("[::1]:8080".to_owned()))
        );
        assert_eq!(
            configured_endpoint(platform, Some(&contents(Some("localhost:1"), false)), false)
                .unwrap_err()
                .message(),
            "invalid bind address; expected IP:PORT"
        );
        assert_eq!(
            configured_endpoint(platform, Some(&contents(None, true)), false).unwrap(),
            Some(BindTarget::Tailscale)
        );
        assert_eq!(
            configured_endpoint(platform, Some(&contents(None, false)), false).unwrap(),
            Some(BindTarget::Address("127.0.0.1:3000".to_owned()))
        );
        assert_eq!(configured_endpoint(platform, None, true).unwrap(), None);
    }
    assert_eq!(configured_endpoint(Platform::Other, Some(""), true).unwrap(), None);
    assert_eq!(argument_value("\"--bind\" x", "--bind"), None);
    assert_eq!(argument_value("<string>--bind</string>", "--bind"), None);
}

#[test]
fn only_loopback_servers_ask_for_no_password() {
    let endpoint = server_endpoint("127.0.0.1:3000".to_owned(), true);
    assert_eq!(endpoint.scheme, "http");
    assert!(!endpoint.requires_auth);
    assert!(server_endpoint("192.0.2.1:3000".to_owned(), false).requires_auth);
}

fn lines(commands: Vec<alx::service::ServiceCommand>) -> Vec<String> {
    commands
        .into_iter()
        .map(|command| {
            let mark = if command.required { "!" } else { "?" };
            format!("{mark} {} {}", command.program, command.arguments.join(" "))
        })
        .collect()
}

#[test]
fn commands_manage_the_service_of_each_platform() {
    assert_eq!(
        lines(install(Platform::Linux, 501, "/p").unwrap()),
        vec![
            "! systemctl --user daemon-reload",
            "! systemctl --user enable --now alx.service",
            "! systemctl --user restart alx.service",
        ]
    );
    assert_eq!(
        lines(install(Platform::Macos, 501, "/p").unwrap()),
        vec![
            "? launchctl bootout gui/501/com.alx.serve",
            "! launchctl bootstrap gui/501 /p",
            "! launchctl enable gui/501/com.alx.serve",
            "! launchctl kickstart -k gui/501/com.alx.serve",
        ]
    );
    assert_eq!(
        lines(status(Platform::Linux, 0).unwrap()),
        vec!["! systemctl --user status alx.service --no-pager"]
    );
    assert_eq!(
        lines(status(Platform::Macos, 7).unwrap()),
        vec!["! launchctl print gui/7/com.alx.serve"]
    );
    assert_eq!(
        lines(restart(Platform::Linux, 0).unwrap()),
        vec!["! systemctl --user restart alx.service"]
    );
    assert_eq!(
        lines(restart(Platform::Macos, 7).unwrap()),
        vec!["! launchctl kickstart -k gui/7/com.alx.serve"]
    );
    assert_eq!(
        lines(uninstall(Platform::Linux, 0).unwrap()),
        vec![
            "? systemctl --user disable --now alx.service",
            "! systemctl --user daemon-reload",
        ]
    );
    assert_eq!(
        lines(uninstall(Platform::Macos, 7).unwrap()),
        vec!["? launchctl bootout gui/7/com.alx.serve"]
    );
    let message = "native alx services are supported only on macOS and Linux";
    assert_eq!(install(Platform::Other, 0, "").unwrap_err().message(), message);
    assert_eq!(status(Platform::Windows, 0).unwrap_err().message(), message);
    assert_eq!(restart(Platform::Other, 0).unwrap_err().message(), message);
    assert_eq!(uninstall(Platform::Other, 0).unwrap_err().message(), message);
    let failed = &status(Platform::Linux, 0).unwrap()[0];
    assert_eq!(
        command_failure(failed, "exit status: 3"),
        "systemctl --user status alx.service --no-pager failed with exit status: 3"
    );
}

#[test]
fn service_files_have_their_place() {
    assert_eq!(
        service_file_path(Platform::Macos).unwrap(),
        (
            BaseDirectory::Home,
            vec![
                "Library".to_owned(),
                "LaunchAgents".to_owned(),
                "com.alx.serve.plist".to_owned()
            ]
        )
    );
    assert_eq!(
        service_file_path(Platform::Linux).unwrap(),
        (
            BaseDirectory::Config,
            vec!["systemd".to_owned(), "user".to_owned(), "alx.service".to_owned()]
        )
    );
    assert!(service_file_path(Platform::Other).is_err());
}

#[test]
fn addresses_are_chosen() {
    assert_eq!(parse_bind_address(None, false, true).unwrap(), BindTarget::Tailscale);
    let text = |value: &str| Some(value.to_owned());
    assert_eq!(merge_bind(text("a"), text("b"), true, false, false).unwrap(), text("a"));
    assert_eq!(merge_bind(None, text("b"), true, false, false).unwrap(), text("b"));
    assert_eq!(merge_bind(None, None, false, true, false).unwrap(), None);
    assert!(merge_bind(None, text("b"), true, true, false).is_err());
    assert!(merge_bind(text("a"), None, true, false, true).is_err());
    assert_eq!(
        merge_bind(text("a"), text("b"), false, false, false).unwrap_err().message(),
        "invalid bind address; expected IP:PORT"
    );
}

#[test]
fn tailscale_output_is_read() {
    let lines = tailscale_lines(true, "not-an-ip\n 100.64.0.8\r\n100.64.0.9\n", "").unwrap();
    assert_eq!(lines, vec!["not-an-ip", "100.64.0.8", "100.64.0.9"]);
    assert_eq!(
        tailscale_address(&lines, &vec![false, true, true]).unwrap(),
        "100.64.0.8:3000"
    );
    assert_eq!(
        tailscale_address(&lines, &vec![false, false, false]).unwrap_err().message(),
        "'tailscale ip -4' returned no valid IPv4 address"
    );
    assert_eq!(
        tailscale_lines(false, "", "unavailable\n").unwrap_err().message(),
        "'tailscale ip -4' failed: unavailable"
    );
}

#[test]
fn serve_commands_come_to_actions() {
    let text = |value: &str| Some(value.to_owned());
    assert!(matches!(
        run_serve(ServeCommand::Foreground, None, false, true).unwrap(),
        ServeAction::Serve(BindTarget::Tailscale)
    ));
    match run_serve(ServeCommand::Foreground, text("0.0.0.0:1"), true, false).unwrap() {
        ServeAction::Serve(BindTarget::Address(address)) => assert_eq!(address, "0.0.0.0:1"),
        other => panic!("unexpected action: {other:?}"),
    }
    assert!(run_serve(ServeCommand::Foreground, text("0.0.0.0:1"), true, true).is_err());
    assert_eq!(
        run_serve(ServeCommand::Foreground, text("localhost:1"), false, false)
            .unwrap_err()
            .message(),
        "invalid bind address; expected IP:PORT"
    );
    let install = |bind: Option<String>, tailscale: bool| ServeCommand::Install { bind, tailscale };
    match run_serve(install(None, false), text("0.0.0.0:1"), true, false).unwrap() {
        ServeAction::Install(options) => {
            assert_eq!(options.bind, text("0.0.0.0:1"));
            assert!(!options.tailscale);
        }
        other => panic!("unexpected action: {other:?}"),
    }
    match run_serve(install(None, true), None, false, false).unwrap() {
        ServeAction::Install(options) => assert!(options.bind.is_none() && options.tailscale),
        other => panic!("unexpected action: {other:?}"),
    }
    assert_eq!(
        run_serve(install(None, true), text("0.0.0.0:1"), true, false).unwrap_err().message(),
        "--bind cannot be used with --tailscale"
    );
    assert!(matches!(
        run_serve(ServeCommand::Status, None, false, false).unwrap(),
        ServeAction::Status
    ));
    assert_eq!(
        run_serve(install(text("localhost:1"), false), text("0.0.0.0:1"), false, false)
            .unwrap_err()
            .message(),
        "invalid bind address; expected IP:PORT"
    );
    let command = install(text("a"), false);
    assert_eq!(bind_of(&command, Some("b")), text("a"));
    assert_eq!(bind_of(&install(None, false), Some("b")), text("b"));
    assert_eq!(bind_of(&ServeCommand::Foreground, Some("b")), text("b"));
    assert_eq!(bind_of(&ServeCommand::Status, Some("b")), None);
}

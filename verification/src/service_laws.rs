//! What the files of the service hold, and which commands manage it.

use vstd::prelude::*;

use crate::error::Failure;
use crate::service;
use crate::service::{BaseDirectory, CommandRow, Platform};
use crate::text;
use crate::text_laws;

verus! {

/// The service is started with the address that it was given, else with Tailscale
/// where that was asked for, else without options.
pub proof fn arguments_are(bind: Option<Seq<char>>, tailscale: bool)
    ensures
        service::arguments(bind, tailscale).len() > 0,
        service::arguments(bind, tailscale)[0] == "serve"@,
        bind matches Some(address) ==> service::arguments(bind, tailscale).drop_first() == seq![
            "--bind"@,
            address,
        ],
        bind is None && tailscale ==> service::arguments(bind, tailscale).drop_first() == seq![
            "--tailscale"@,
        ],
        bind is None && !tailscale ==> service::arguments(bind, tailscale).len() == 1,
{
    let arguments = service::arguments(bind, tailscale);
    if let Some(address) = bind {
        assert(arguments.drop_first() =~= seq!["--bind"@, address]);
    } else if tailscale {
        assert(arguments.drop_first() =~= seq!["--tailscale"@]);
    }
}

// ---------------------------------------------------------------- systemd

/// How a character is written between the quotes of a unit: a backslash before a
/// backslash or a quotation mark, letters for a line feed, a carriage return and a tab,
/// two of `$` and of `%`, two hexadecimal digits for another control character, and
/// every other as it is.
pub open spec fn in_quotes(c: char) -> Seq<char> {
    if c == '\\' || c == '"' {
        seq!['\\', c]
    } else if c as u32 == 10 {
        seq!['\\', 'n']
    } else if c as u32 == 13 {
        seq!['\\', 'r']
    } else if c as u32 == 9 {
        seq!['\\', 't']
    } else if c == '$' || c == '%' {
        seq![c, c]
    } else if (c as u32) < 32 || 127 <= c as u32 <= 159 {
        seq![
            '\\',
            'x',
            "0123456789abcdef"@[(c as u32 / 16) as int],
            "0123456789abcdef"@[(c as u32 % 16) as int],
        ]
    } else {
        seq![c]
    }
}

proof fn systemd_char_is(c: char)
    ensures
        service::systemd_char(c) == in_quotes(c),
{
    reveal_strlit("\\\\");
    reveal_strlit("\\\"");
    reveal_strlit("\\n");
    reveal_strlit("\\r");
    reveal_strlit("\\t");
    reveal_strlit("$$");
    reveal_strlit("%%");
    reveal_strlit("\\x");
    text_laws::control_is(c);
    if text::is_control(c) {
        let byte = c as u8;
        assert(byte as u32 == c as u32);
        let bytes = seq![byte];
        text_laws::hex_stands_for(bytes);
        assert(bytes.drop_last() =~= Seq::<u8>::empty());
        assert(text::hex(bytes) =~= text::hex_byte(byte)) by {
            assert(text::hex(Seq::<u8>::empty()) =~= Seq::<char>::empty());
        }
        assert(bytes[0] == byte);
        assert(text::hex(bytes)[2 * 0int] == "0123456789abcdef"@[(byte / 16) as int]);
        assert(text::hex(bytes)[2 * 0int + 1] == "0123456789abcdef"@[(byte % 16) as int]);
        if c != '\n' && c != '\r' && c != '\t' {
            assert(service::systemd_char(c) =~= in_quotes(c));
        }
    }
    assert(service::systemd_char(c) =~= in_quotes(c));
}

/// A value between quotes is written character by character.
pub proof fn quoted_value_is(value: Seq<char>)
    ensures
        service::systemd_quoted(value) == seq!['"'] + value.map_values(
            |c: char| in_quotes(c),
        ).flatten() + seq!['"'],
{
    let map = |c: char| service::systemd_char(c);
    let wanted = |c: char| in_quotes(c);
    reveal_strlit("\"");
    assert("\""@ =~= seq!['"']);
    text_laws::mapped_is(value, map);
    assert forall|i: int| 0 <= i < value.len() implies map(#[trigger] value[i]) == wanted(
        value[i],
    ) by {
        systemd_char_is(value[i]);
    }
    assert(value.map_values(map) =~= value.map_values(wanted));
}

proof fn command_is(executable: Seq<char>, arguments: Seq<Seq<char>>)
    ensures
        service::systemd_command(executable, arguments) == service::systemd_quoted(executable)
            + arguments.map_values(
            |argument: Seq<char>| seq![' '] + service::systemd_quoted(argument),
        ).flatten(),
    decreases arguments.len(),
{
    let map = |argument: Seq<char>| seq![' '] + service::systemd_quoted(argument);
    reveal_strlit(" ");
    assert(" "@ =~= seq![' ']);
    let first = service::systemd_quoted(executable);
    if arguments.len() == 0 {
        assert(arguments.map_values(map).flatten() =~= Seq::empty());
        assert(first + Seq::<char>::empty() =~= first);
    } else {
        let front = arguments.drop_last();
        command_is(executable, front);
        assert(arguments.map_values(map) =~= front.map_values(map).push(map(arguments.last())));
        front.map_values(map).lemma_flatten_push(map(arguments.last()));
        assert(service::systemd_command(executable, arguments) =~= first + (front.map_values(
            map,
        ).flatten() + map(arguments.last())));
    }
}

proof fn variables_are(environment: Seq<(Seq<char>, Seq<char>)>)
    ensures
        service::systemd_variables(environment) == environment.map_values(
            |pair: (Seq<char>, Seq<char>)|
                "Environment="@ + service::systemd_quoted(pair.0 + seq!['='] + pair.1) + seq![
                    '\n',
                ],
        ).flatten(),
    decreases environment.len(),
{
    let map = |pair: (Seq<char>, Seq<char>)|
        "Environment="@ + service::systemd_quoted(pair.0 + seq!['='] + pair.1) + seq!['\n'];
    reveal_strlit("=");
    reveal_strlit("\n");
    assert("="@ =~= seq!['=']);
    assert("\n"@ =~= seq!['\n']);
    if environment.len() == 0 {
        assert(environment.map_values(map).flatten() =~= Seq::empty());
    } else {
        let front = environment.drop_last();
        variables_are(front);
        assert(environment.map_values(map) =~= front.map_values(map).push(
            map(environment.last()),
        ));
        front.map_values(map).lemma_flatten_push(map(environment.last()));
        assert(service::systemd_variables(environment) =~= front.map_values(map).flatten() + map(
            environment.last(),
        ));
    }
}

/// A unit starts the executable with its arguments, each quoted, sets each variable on
/// a line of its own, and is restarted when it fails.
pub proof fn unit_is(
    executable: Seq<char>,
    arguments: Seq<Seq<char>>,
    environment: Seq<(Seq<char>, Seq<char>)>,
)
    ensures
        service::unit(executable, arguments, environment)
            == "[Unit]\nDescription=alx web service\nAfter=default.target\n\n[Service]\nExecStart="@
            + (service::systemd_quoted(executable) + arguments.map_values(
            |argument: Seq<char>| seq![' '] + service::systemd_quoted(argument),
        ).flatten()) + ("\nRestart=on-failure\nRestartSec=2\n"@ + environment.map_values(
            |pair: (Seq<char>, Seq<char>)|
                "Environment="@ + service::systemd_quoted(pair.0 + seq!['='] + pair.1) + seq![
                    '\n',
                ],
        ).flatten() + "\n[Install]\nWantedBy=default.target\n"@),
{
    command_is(executable, arguments);
    variables_are(environment);
}

// ---------------------------------------------------------------- launchd

/// How a character is written in XML.
pub open spec fn in_xml(c: char) -> Seq<char> {
    if c == '&' {
        seq!['&', 'a', 'm', 'p', ';']
    } else if c == '<' {
        seq!['&', 'l', 't', ';']
    } else if c == '>' {
        seq!['&', 'g', 't', ';']
    } else if c == '"' {
        seq!['&', 'q', 'u', 'o', 't', ';']
    } else if c == '\'' {
        seq!['&', 'a', 'p', 'o', 's', ';']
    } else {
        seq![c]
    }
}

/// A text is written in XML character by character.
pub proof fn xml_text_is(value: Seq<char>)
    ensures
        service::xml_escaped(value) == value.map_values(|c: char| in_xml(c)).flatten(),
{
    let map = |c: char| service::xml_char(c);
    let wanted = |c: char| in_xml(c);
    reveal_strlit("&amp;");
    reveal_strlit("&lt;");
    reveal_strlit("&gt;");
    reveal_strlit("&quot;");
    reveal_strlit("&apos;");
    text_laws::mapped_is(value, map);
    assert forall|i: int| 0 <= i < value.len() implies map(#[trigger] value[i]) == wanted(
        value[i],
    ) by {
        assert(service::xml_char(value[i]) =~= in_xml(value[i]));
    }
    assert(value.map_values(map) =~= value.map_values(wanted));
}

proof fn strings_are(values: Seq<Seq<char>>)
    ensures
        service::plist_strings(values) == values.map_values(
            |value: Seq<char>|
                "    <string>"@ + service::xml_escaped(value) + "</string>\n"@,
        ).flatten(),
    decreases values.len(),
{
    let map = |value: Seq<char>|
        "    <string>"@ + service::xml_escaped(value) + "</string>\n"@;
    if values.len() == 0 {
        assert(values.map_values(map).flatten() =~= Seq::empty());
    } else {
        let front = values.drop_last();
        strings_are(front);
        assert(values.map_values(map) =~= front.map_values(map).push(map(values.last())));
        front.map_values(map).lemma_flatten_push(map(values.last()));
        assert(service::plist_strings(values) =~= front.map_values(map).flatten() + map(
            values.last(),
        ));
    }
}

proof fn pairs_are(environment: Seq<(Seq<char>, Seq<char>)>)
    ensures
        service::plist_pairs(environment) == environment.map_values(
            |pair: (Seq<char>, Seq<char>)|
                "    <key>"@ + service::xml_escaped(pair.0) + "</key>\n    <string>"@
                    + service::xml_escaped(pair.1) + "</string>\n"@,
        ).flatten(),
    decreases environment.len(),
{
    let map = |pair: (Seq<char>, Seq<char>)|
        "    <key>"@ + service::xml_escaped(pair.0) + "</key>\n    <string>"@
            + service::xml_escaped(pair.1) + "</string>\n"@;
    if environment.len() == 0 {
        assert(environment.map_values(map).flatten() =~= Seq::empty());
    } else {
        let front = environment.drop_last();
        pairs_are(front);
        assert(environment.map_values(map) =~= front.map_values(map).push(
            map(environment.last()),
        ));
        front.map_values(map).lemma_flatten_push(map(environment.last()));
        assert(service::plist_pairs(environment) =~= front.map_values(map).flatten() + map(
            environment.last(),
        ));
    }
}

/// A property list names the service, starts the executable with its arguments, keeps
/// it alive, and sets each variable, if there are any.
pub proof fn plist_is(
    executable: Seq<char>,
    arguments: Seq<Seq<char>>,
    environment: Seq<(Seq<char>, Seq<char>)>,
)
    ensures
        service::plist(executable, arguments, environment)
            == "<?xml version=\"1.0\" encoding=\"UTF-8\"?>\n<!DOCTYPE plist PUBLIC \"-//Apple//DTD PLIST 1.0//EN\" \"http://www.apple.com/DTDs/PropertyList-1.0.dtd\">\n<plist version=\"1.0\">\n<dict>\n  <key>Label</key>\n  <string>"@
            + service::xml_escaped("com.alx.serve"@)
            + "</string>\n  <key>ProgramArguments</key>\n  <array>\n"@ + (seq![executable]
            + arguments).map_values(
            |value: Seq<char>|
                "    <string>"@ + service::xml_escaped(value) + "</string>\n"@,
        ).flatten()
            + ("  </array>\n  <key>RunAtLoad</key>\n  <true/>\n  <key>KeepAlive</key>\n  <true/>\n"@
            + (if environment.len() == 0 {
            Seq::empty()
        } else {
            "  <key>EnvironmentVariables</key>\n  <dict>\n"@ + environment.map_values(
                |pair: (Seq<char>, Seq<char>)|
                    "    <key>"@ + service::xml_escaped(pair.0) + "</key>\n    <string>"@
                        + service::xml_escaped(pair.1) + "</string>\n"@,
            ).flatten() + "  </dict>\n"@
        }) + "</dict>\n</plist>\n"@),
{
    strings_are(seq![executable] + arguments);
    pairs_are(environment);
}

// ---------------------------------------------------------------- files and commands

/// A unit is written for Linux, a property list for macOS, and nothing elsewhere.
pub proof fn service_file_is(
    platform: Platform,
    executable: Seq<char>,
    arguments: Seq<Seq<char>>,
    environment: Seq<(Seq<char>, Seq<char>)>,
)
    ensures
        platform == Platform::Linux ==> service::service_file(
            platform,
            executable,
            arguments,
            environment,
        ) == Ok::<Seq<char>, Failure>(service::unit(executable, arguments, environment)),
        platform == Platform::Macos ==> service::service_file(
            platform,
            executable,
            arguments,
            environment,
        ) == Ok::<Seq<char>, Failure>(service::plist(executable, arguments, environment)),
        platform == Platform::Windows || platform == Platform::Other ==> service::service_file(
            platform,
            executable,
            arguments,
            environment,
        ) == Err::<Seq<char>, Failure>(
            Failure::Other("native alx services are supported only on macOS and Linux"@),
        ),
{
}

/// Where the file of the service is kept.
pub proof fn service_path_is(platform: Platform)
    ensures
        platform == Platform::Linux ==> service::service_path(platform) == Ok::<
            (BaseDirectory, Seq<Seq<char>>),
            Failure,
        >((BaseDirectory::Config, seq!["systemd"@, "user"@, "alx.service"@])),
        platform == Platform::Macos ==> service::service_path(platform) == Ok::<
            (BaseDirectory, Seq<Seq<char>>),
            Failure,
        >(
            (
                BaseDirectory::Home,
                seq!["Library"@, "LaunchAgents"@, "com.alx.serve.plist"@],
            ),
        ),
        platform == Platform::Windows || platform == Platform::Other ==> service::service_path(
            platform,
        ) is Err,
{
    reveal_strlit("com.alx.serve.plist");
    reveal_strlit("com.alx.serve");
    reveal_strlit(".plist");
    assert("com.alx.serve"@ + ".plist"@ =~= "com.alx.serve.plist"@);
}

/// The command line of a command, word by word.
pub open spec fn words_of(command: CommandRow) -> Seq<Seq<char>> {
    seq![command.program] + command.arguments
}

/// On Linux the service is managed by systemd for the user: it is enabled and started
/// anew on installation, and its files are read again before and after.
pub proof fn systemd_commands_are(user: u32, path: Seq<char>)
    ensures
        service::install_commands(Platform::Linux, user, path) matches Ok(commands)
            && commands.len() == 3 && words_of(commands[0]) == seq![
            "systemctl"@,
            "--user"@,
            "daemon-reload"@,
        ] && words_of(commands[1]) == seq![
            "systemctl"@,
            "--user"@,
            "enable"@,
            "--now"@,
            "alx.service"@,
        ] && words_of(commands[2]) == seq!["systemctl"@, "--user"@, "restart"@, "alx.service"@]
            && (forall|k: int| 0 <= k < 3 ==> (#[trigger] commands[k]).required
            && !commands[k].quiet),
        service::status_commands(Platform::Linux, user) matches Ok(commands) && commands.len() == 1
            && words_of(commands[0]) == seq![
            "systemctl"@,
            "--user"@,
            "status"@,
            "alx.service"@,
            "--no-pager"@,
        ] && commands[0].required,
        service::restart_commands(Platform::Linux, user) matches Ok(commands) && commands.len()
            == 1 && words_of(commands[0]) == seq![
            "systemctl"@,
            "--user"@,
            "restart"@,
            "alx.service"@,
        ] && commands[0].required,
        service::uninstall_commands(Platform::Linux, user) matches Ok(commands) && commands.len()
            == 2 && words_of(commands[0]) == seq![
            "systemctl"@,
            "--user"@,
            "disable"@,
            "--now"@,
            "alx.service"@,
        ] && !commands[0].required && words_of(commands[1]) == seq![
            "systemctl"@,
            "--user"@,
            "daemon-reload"@,
        ] && commands[1].required,
{
    let install = service::install_commands(Platform::Linux, user, path)->Ok_0;
    assert(words_of(install[0]) =~= seq!["systemctl"@, "--user"@, "daemon-reload"@]);
    assert(words_of(install[1]) =~= seq![
        "systemctl"@,
        "--user"@,
        "enable"@,
        "--now"@,
        "alx.service"@,
    ]);
    assert(words_of(install[2]) =~= seq!["systemctl"@, "--user"@, "restart"@, "alx.service"@]);
    let status = service::status_commands(Platform::Linux, user)->Ok_0;
    assert(words_of(status[0]) =~= seq![
        "systemctl"@,
        "--user"@,
        "status"@,
        "alx.service"@,
        "--no-pager"@,
    ]);
    let restart = service::restart_commands(Platform::Linux, user)->Ok_0;
    assert(words_of(restart[0]) =~= seq!["systemctl"@, "--user"@, "restart"@, "alx.service"@]);
    let uninstall = service::uninstall_commands(Platform::Linux, user)->Ok_0;
    assert(words_of(uninstall[0]) =~= seq![
        "systemctl"@,
        "--user"@,
        "disable"@,
        "--now"@,
        "alx.service"@,
    ]);
    assert(words_of(uninstall[1]) =~= seq!["systemctl"@, "--user"@, "daemon-reload"@]);
}

/// On macOS the service is managed by launchd in the domain of the user: what runs
/// already is taken out first, if it is there, without a word.
pub proof fn launchd_commands_are(user: u32, path: Seq<char>)
    ensures
        ({
            let domain = "gui/"@ + text::decimal(user as nat);
            let target = domain + "/com.alx.serve"@;
            let bootout = seq!["launchctl"@, "bootout"@, target];
            &&& service::install_commands(Platform::Macos, user, path) matches Ok(commands)
                && commands.len() == 4 && words_of(commands[0]) == bootout
                && !commands[0].required && commands[0].quiet && words_of(commands[1]) == seq![
                "launchctl"@,
                "bootstrap"@,
                domain,
                path,
            ] && words_of(commands[2]) == seq!["launchctl"@, "enable"@, target] && words_of(
                commands[3],
            ) == seq!["launchctl"@, "kickstart"@, "-k"@, target] && (forall|k: int|
                1 <= k < 4 ==> (#[trigger] commands[k]).required && !commands[k].quiet)
            &&& service::status_commands(Platform::Macos, user) matches Ok(commands)
                && commands.len() == 1 && words_of(commands[0]) == seq![
                "launchctl"@,
                "print"@,
                target,
            ] && commands[0].required
            &&& service::restart_commands(Platform::Macos, user) matches Ok(commands)
                && commands.len() == 1 && words_of(commands[0]) == seq![
                "launchctl"@,
                "kickstart"@,
                "-k"@,
                target,
            ] && commands[0].required
            &&& service::uninstall_commands(Platform::Macos, user) matches Ok(commands)
                && commands.len() == 1 && words_of(commands[0]) == bootout
                && !commands[0].required && commands[0].quiet
        }),
{
    reveal_strlit("/com.alx.serve");
    reveal_strlit("com.alx.serve");
    reveal_strlit("/");
    let domain = "gui/"@ + text::decimal(user as nat);
    let target = domain + "/com.alx.serve"@;
    assert(service::service_target(user) =~= target);
    let bootout = seq!["launchctl"@, "bootout"@, target];
    let install = service::install_commands(Platform::Macos, user, path)->Ok_0;
    assert(words_of(install[0]) =~= bootout);
    assert(words_of(install[1]) =~= seq!["launchctl"@, "bootstrap"@, domain, path]);
    assert(words_of(install[2]) =~= seq!["launchctl"@, "enable"@, target]);
    assert(words_of(install[3]) =~= seq!["launchctl"@, "kickstart"@, "-k"@, target]);
    let status = service::status_commands(Platform::Macos, user)->Ok_0;
    assert(words_of(status[0]) =~= seq!["launchctl"@, "print"@, target]);
    let restart = service::restart_commands(Platform::Macos, user)->Ok_0;
    assert(words_of(restart[0]) =~= seq!["launchctl"@, "kickstart"@, "-k"@, target]);
    let uninstall = service::uninstall_commands(Platform::Macos, user)->Ok_0;
    assert(words_of(uninstall[0]) =~= bootout);
}

/// Elsewhere no service is managed.
pub proof fn other_platforms_have_none(platform: Platform, user: u32, path: Seq<char>)
    requires
        platform == Platform::Windows || platform == Platform::Other,
    ensures
        ({
            let refused = Err::<Seq<CommandRow>, Failure>(
                Failure::Other("native alx services are supported only on macOS and Linux"@),
            );
            &&& service::install_commands(platform, user, path) == refused
            &&& service::status_commands(platform, user) == refused
            &&& service::restart_commands(platform, user) == refused
            &&& service::uninstall_commands(platform, user) == refused
        }),
{
}

// ---------------------------------------------------------------- reading

/// The value of an argument is the next string after the first string that is the
/// argument; in a file without such a string, what stands between the next two quotation
/// marks after the argument in quotes.
pub proof fn argument_value_is(
    contents: Seq<char>,
    argument: Seq<char>,
    at: int,
    start: int,
    end: int,
)
    ensures
        ({
            let string = "<string>"@ + argument + "</string>"@;
            &&& text_laws::is_first_place(contents, string, 0, at) && text_laws::is_first_place(
                contents,
                "<string>"@,
                at + string.len(),
                start,
            ) && text_laws::is_first_place(contents, "</string>"@, start + 8, end)
                ==> service::value_after(contents, argument) == Some(
                contents.subrange(start + 8, end),
            )
        }),
        ({
            let string = "<string>"@ + argument + "</string>"@;
            let quoted = seq!['"'] + argument + seq!['"'];
            &&& (forall|i: int| 0 <= i ==> !#[trigger] text::occurs_at(contents, string, i))
                && text_laws::is_first_place(contents, quoted, 0, at) && text_laws::is_first_place(
                contents,
                seq!['"'],
                at + quoted.len(),
                start,
            ) && text_laws::is_first_place(contents, seq!['"'], start + 1, end)
                ==> service::value_after(contents, argument) == Some(
                contents.subrange(start + 1, end),
            )
        }),
        (forall|i: int|
            0 <= i ==> !#[trigger] text::occurs_at(
                contents,
                "<string>"@ + argument + "</string>"@,
                i,
            )) && (forall|i: int|
            0 <= i ==> !#[trigger] text::occurs_at(
                contents,
                seq!['"'] + argument + seq!['"'],
                i,
            )) ==> service::value_after(contents, argument) is None,
{
    reveal_strlit("\"");
    reveal_strlit("<string>");
    reveal_strlit("</string>");
    assert("\""@ =~= seq!['"']);
    let string = "<string>"@ + argument + "</string>"@;
    let quoted = seq!['"'] + argument + seq!['"'];
    text_laws::found_is(contents, string, 0, at);
    text_laws::found_is(contents, quoted, 0, at);
    if at >= 0 {
        text_laws::found_is(contents, "<string>"@, at + string.len(), start);
        text_laws::found_is(contents, seq!['"'], at + quoted.len(), start);
        if start >= 0 {
            text_laws::found_is(contents, "</string>"@, start + 8, end);
            text_laws::found_is(contents, seq!['"'], start + 1, end);
        }
    }
}

} // verus!

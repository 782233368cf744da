//! The background service: its files and the commands that manage it.

use vstd::prelude::*;
use vstd::string::*;

use crate::bind;
use crate::bind::{BindTarget, Target};
use crate::error;
use crate::error::{other, Error, Failure};
use crate::model;
use crate::text;

verus! {

/// The label of the service.
pub const SERVICE_LABEL: &'static str = "com.alx.serve";

/// The message where there are no services.
pub const UNSUPPORTED: &'static str = "native alx services are supported only on macOS and Linux";

/// The systems that differ in how services are managed.
#[derive(Clone, Copy, Debug, PartialEq, Eq, Structural)]
pub enum Platform {
    Macos,
    Linux,
    Windows,
    Other,
}

/// Services can be installed on the platform.
pub open spec fn has_services(platform: Platform) -> bool {
    platform == Platform::Macos || platform == Platform::Linux
}

/// How the service is to be started.
#[derive(Debug)]
pub struct InstallOptions {
    pub bind: Option<String>,
    pub tailscale: bool,
}

impl InstallOptions {
    /// The address to bind.
    pub open spec fn bind(self) -> Option<Seq<char>> {
        text::optional(self.bind)
    }
}

impl Default for InstallOptions {
    fn default() -> (options: Self)
        ensures
            options.bind is None,
            !options.tailscale,
    {
        InstallOptions { bind: None, tailscale: false }
    }
}

impl Clone for InstallOptions {
    fn clone(&self) -> (copy: Self)
        ensures
            copy.bind() == self.bind(),
            copy.tailscale == self.tailscale,
    {
        InstallOptions { bind: text::copy_optional(&self.bind), tailscale: self.tailscale }
    }
}

/// The arguments with which the service is started. An address counts before
/// Tailscale.
pub open spec fn arguments(bind: Option<Seq<char>>, tailscale: bool) -> Seq<Seq<char>> {
    match bind {
        Some(bind) => seq!["serve"@, "--bind"@, bind],
        None => if tailscale {
            seq!["serve"@, "--tailscale"@]
        } else {
            seq!["serve"@]
        },
    }
}

/// The arguments with which the service is started.
pub fn executable_args(options: &InstallOptions) -> (args: Vec<String>)
    ensures
        text::texts(args@) == arguments(options.bind(), options.tailscale),
{
    let mut args: Vec<String> = Vec::new();
    args.push("serve".to_owned());
    if let Some(bind) = &options.bind {
        args.push("--bind".to_owned());
        args.push(bind.clone());
    } else if options.tailscale {
        args.push("--tailscale".to_owned());
    }
    assert(text::texts(args@) =~= arguments(options.bind(), options.tailscale));
    args
}

// ---------------------------------------------------------------- systemd

/// A character in a quoted value of a systemd unit.
pub open spec fn systemd_char(c: char) -> Seq<char> {
    if c == '\\' {
        "\\\\"@
    } else if c == '"' {
        "\\\""@
    } else if c == '\n' {
        "\\n"@
    } else if c == '\r' {
        "\\r"@
    } else if c == '\t' {
        "\\t"@
    } else if c == '$' {
        "$$"@
    } else if c == '%' {
        "%%"@
    } else if text::is_control(c) {
        "\\x"@ + text::hex_byte(c as u8)
    } else {
        seq![c]
    }
}

/// What stands between the quotes of a quoted value.
pub open spec fn systemd_escaped(value: Seq<char>) -> Seq<char> {
    text::mapped(value, |c: char| systemd_char(c))
}

/// A quoted value of a systemd unit.
pub open spec fn systemd_quoted(value: Seq<char>) -> Seq<char> {
    "\""@ + systemd_escaped(value) + "\""@
}

/// A quoted value of a systemd unit.
pub fn systemd_quote(value: &str) -> (quoted: String)
    ensures
        quoted@ == systemd_quoted(value@),
{
    let chars = text::chars_of(value);
    let mut quoted = "\"".to_owned();
    let ghost map = |c: char| systemd_char(c);
    assert(value@.take(0) =~= Seq::empty());
    assert("\""@ + text::mapped(value@.take(0), map) =~= "\""@);
    for i in 0..chars.len()
        invariant
            chars@ == value@,
            map == (|c: char| systemd_char(c)),
            quoted@ == "\""@ + text::mapped(value@.take(i as int), map),
    {
        proof {
            text::mapped_step(value@, map, i as int);
        }
        let c = chars[i];
        if c == '\\' {
            quoted.append("\\\\");
        } else if c == '"' {
            quoted.append("\\\"");
        } else if c == '\n' {
            quoted.append("\\n");
        } else if c == '\r' {
            quoted.append("\\r");
        } else if c == '\t' {
            quoted.append("\\t");
        } else if c == '$' {
            quoted.append("$$");
        } else if c == '%' {
            quoted.append("%%");
        } else if text::control(c) {
            let byte: [u8; 1] = [c as u8];
            let digits = text::hex_of(&byte);
            proof {
                assert(byte@.drop_last() =~= Seq::empty());
                assert(digits@ =~= text::hex_byte(c as u8));
            }
            quoted.append("\\x");
            quoted.append(digits.as_str());
        } else {
            quoted.push(c);
        }
        assert(quoted@ =~= "\""@ + text::mapped(value@.take(i as int), map) + systemd_char(c));
        assert(quoted@ =~= "\""@ + text::mapped(value@.take(i + 1), map));
    }
    assert(value@.take(value@.len() as int) =~= value@);
    quoted.append("\"");
    quoted
}

/// The views of a list of variables with their values.
pub open spec fn variables(environment: Seq<(String, String)>) -> Seq<(Seq<char>, Seq<char>)> {
    environment.map_values(|pair: (String, String)| (pair.0@, pair.1@))
}

/// The command line of the unit: the executable and its arguments, each quoted,
/// with spaces between.
pub open spec fn systemd_command(executable: Seq<char>, arguments: Seq<Seq<char>>) -> Seq<char>
    decreases arguments.len(),
{
    if arguments.len() == 0 {
        systemd_quoted(executable)
    } else {
        systemd_command(executable, arguments.drop_last()) + " "@ + systemd_quoted(
            arguments.last(),
        )
    }
}

/// The lines of a systemd unit that set variables.
pub open spec fn systemd_variables(environment: Seq<(Seq<char>, Seq<char>)>) -> Seq<char>
    decreases environment.len(),
{
    if environment.len() == 0 {
        Seq::empty()
    } else {
        systemd_variables(environment.drop_last()) + "Environment="@ + systemd_quoted(
            environment.last().0 + "="@ + environment.last().1,
        ) + "\n"@
    }
}

/// The unit up to the command line.
pub open spec fn systemd_head() -> Seq<char> {
    "[Unit]\nDescription=alx web service\nAfter=default.target\n\n[Service]\nExecStart="@
}

/// The unit after the command line.
pub open spec fn systemd_tail(environment: Seq<(Seq<char>, Seq<char>)>) -> Seq<char> {
    "\nRestart=on-failure\nRestartSec=2\n"@ + systemd_variables(environment)
        + "\n[Install]\nWantedBy=default.target\n"@
}

/// The systemd unit of the service.
pub open spec fn unit(
    executable: Seq<char>,
    arguments: Seq<Seq<char>>,
    environment: Seq<(Seq<char>, Seq<char>)>,
) -> Seq<char> {
    systemd_head() + systemd_command(executable, arguments) + systemd_tail(environment)
}

/// The systemd unit of the service for the user. No password stands in it.
pub fn systemd_unit(
    executable: &str,
    options: &InstallOptions,
    environment: &Vec<(String, String)>,
) -> (output: String)
    ensures
        output@ == unit(
            executable@,
            arguments(options.bind(), options.tailscale),
            variables(environment@),
        ),
{
    let args = executable_args(options);
    let ghost list = text::texts(args@);
    let mut output =
        "[Unit]\nDescription=alx web service\nAfter=default.target\n\n[Service]\nExecStart=".to_owned();
    let first = systemd_quote(executable);
    output.append(first.as_str());
    assert(list.take(0) =~= Seq::empty());
    for i in 0..args.len()
        invariant
            list == text::texts(args@),
            output@ == systemd_head() + systemd_command(executable@, list.take(i as int)),
    {
        assert(list.take(i + 1).drop_last() =~= list.take(i as int));
        let argument = systemd_quote(args[i].as_str());
        output.append(" ");
        output.append(argument.as_str());
        assert(output@ =~= systemd_head() + systemd_command(executable@, list.take(i + 1)));
    }
    assert(list.take(list.len() as int) =~= list);
    let ghost command = output@;
    output.append("\nRestart=on-failure\nRestartSec=2\n");
    let ghost all = variables(environment@);
    assert(all.take(0) =~= Seq::empty());
    assert(output@ =~= command + "\nRestart=on-failure\nRestartSec=2\n"@ + systemd_variables(
        all.take(0),
    ));
    for i in 0..environment.len()
        invariant
            all == variables(environment@),
            output@ == command + "\nRestart=on-failure\nRestartSec=2\n"@ + systemd_variables(
                all.take(i as int),
            ),
    {
        assert(all.take(i + 1).drop_last() =~= all.take(i as int));
        assert(all[i as int] == (environment@[i as int].0@, environment@[i as int].1@));
        let setting = text::concat3(
            environment[i].0.as_str(),
            "=",
            environment[i].1.as_str(),
        );
        let quoted = systemd_quote(setting.as_str());
        output.append("Environment=");
        output.append(quoted.as_str());
        output.append("\n");
        assert(output@ =~= command + "\nRestart=on-failure\nRestartSec=2\n"@ + systemd_variables(
            all.take(i + 1),
        ));
    }
    assert(all.take(all.len() as int) =~= all);
    output.append("\n[Install]\nWantedBy=default.target\n");
    assert(output@ =~= unit(executable@, list, all));
    output
}

// ---------------------------------------------------------------- launchd

/// A character in XML text.
pub open spec fn xml_char(c: char) -> Seq<char> {
    if c == '&' {
        "&amp;"@
    } else if c == '<' {
        "&lt;"@
    } else if c == '>' {
        "&gt;"@
    } else if c == '"' {
        "&quot;"@
    } else if c == '\'' {
        "&apos;"@
    } else {
        seq![c]
    }
}

/// A text in XML.
pub open spec fn xml_escaped(value: Seq<char>) -> Seq<char> {
    text::mapped(value, |c: char| xml_char(c))
}

/// A text in XML.
pub fn xml_escape(value: &str) -> (escaped: String)
    ensures
        escaped@ == xml_escaped(value@),
{
    let chars = text::chars_of(value);
    let mut escaped = String::new();
    let ghost map = |c: char| xml_char(c);
    assert(value@.take(0) =~= Seq::empty());
    for i in 0..chars.len()
        invariant
            chars@ == value@,
            map == (|c: char| xml_char(c)),
            escaped@ == text::mapped(value@.take(i as int), map),
    {
        proof {
            text::mapped_step(value@, map, i as int);
        }
        let c = chars[i];
        if c == '&' {
            escaped.append("&amp;");
        } else if c == '<' {
            escaped.append("&lt;");
        } else if c == '>' {
            escaped.append("&gt;");
        } else if c == '"' {
            escaped.append("&quot;");
        } else if c == '\'' {
            escaped.append("&apos;");
        } else {
            escaped.push(c);
        }
        assert(escaped@ =~= text::mapped(value@.take(i as int), map) + xml_char(c));
    }
    assert(value@.take(value@.len() as int) =~= value@);
    escaped
}

/// The lines of a property list for a list of strings.
pub open spec fn plist_strings(values: Seq<Seq<char>>) -> Seq<char>
    decreases values.len(),
{
    if values.len() == 0 {
        Seq::empty()
    } else {
        plist_strings(values.drop_last()) + "    <string>"@ + xml_escaped(values.last())
            + "</string>\n"@
    }
}

/// The lines of a property list for variables with their values.
pub open spec fn plist_pairs(environment: Seq<(Seq<char>, Seq<char>)>) -> Seq<char>
    decreases environment.len(),
{
    if environment.len() == 0 {
        Seq::empty()
    } else {
        plist_pairs(environment.drop_last()) + "    <key>"@ + xml_escaped(environment.last().0)
            + "</key>\n    <string>"@ + xml_escaped(environment.last().1) + "</string>\n"@
    }
}

/// The property list up to the arguments.
pub open spec fn plist_head() -> Seq<char> {
    "<?xml version=\"1.0\" encoding=\"UTF-8\"?>\n<!DOCTYPE plist PUBLIC \"-//Apple//DTD PLIST 1.0//EN\" \"http://www.apple.com/DTDs/PropertyList-1.0.dtd\">\n<plist version=\"1.0\">\n<dict>\n  <key>Label</key>\n  <string>"@
        + xml_escaped(SERVICE_LABEL@)
        + "</string>\n  <key>ProgramArguments</key>\n  <array>\n"@
}

/// The property list after the arguments.
pub open spec fn plist_tail(environment: Seq<(Seq<char>, Seq<char>)>) -> Seq<char> {
    "  </array>\n  <key>RunAtLoad</key>\n  <true/>\n  <key>KeepAlive</key>\n  <true/>\n"@ + (
    if environment.len() == 0 {
        Seq::empty()
    } else {
        "  <key>EnvironmentVariables</key>\n  <dict>\n"@ + plist_pairs(environment)
            + "  </dict>\n"@
    }) + "</dict>\n</plist>\n"@
}

/// The property list of the service.
pub open spec fn plist(
    executable: Seq<char>,
    arguments: Seq<Seq<char>>,
    environment: Seq<(Seq<char>, Seq<char>)>,
) -> Seq<char> {
    plist_head() + plist_strings(seq![executable] + arguments) + plist_tail(environment)
}

/// The launchd property list of the service for the user. No password stands in
/// it.
pub fn launchd_plist(
    executable: &str,
    options: &InstallOptions,
    environment: &Vec<(String, String)>,
) -> (output: String)
    ensures
        output@ == plist(
            executable@,
            arguments(options.bind(), options.tailscale),
            variables(environment@),
        ),
{
    let mut values: Vec<String> = Vec::new();
    values.push(executable.to_owned());
    let mut args = executable_args(options);
    let ghost arguments = text::texts(args@);
    values.append(&mut args);
    let ghost list = text::texts(values@);
    assert(list =~= seq![executable@] + arguments);
    let label = xml_escape(SERVICE_LABEL);
    let mut output = text::concat3(
        "<?xml version=\"1.0\" encoding=\"UTF-8\"?>\n<!DOCTYPE plist PUBLIC \"-//Apple//DTD PLIST 1.0//EN\" \"http://www.apple.com/DTDs/PropertyList-1.0.dtd\">\n<plist version=\"1.0\">\n<dict>\n  <key>Label</key>\n  <string>",
        label.as_str(),
        "</string>\n  <key>ProgramArguments</key>\n  <array>\n",
    );
    assert(list.take(0) =~= Seq::empty());
    assert(output@ =~= plist_head() + plist_strings(list.take(0)));
    for i in 0..values.len()
        invariant
            list == text::texts(values@),
            output@ == plist_head() + plist_strings(list.take(i as int)),
    {
        assert(list.take(i + 1).drop_last() =~= list.take(i as int));
        let value = xml_escape(values[i].as_str());
        output.append("    <string>");
        output.append(value.as_str());
        output.append("</string>\n");
        assert(output@ =~= plist_head() + plist_strings(list.take(i + 1)));
    }
    assert(list.take(list.len() as int) =~= list);
    let ghost front = output@;
    let ghost all = variables(environment@);
    let ghost middle =
        "  </array>\n  <key>RunAtLoad</key>\n  <true/>\n  <key>KeepAlive</key>\n  <true/>\n"@;
    output.append(
        "  </array>\n  <key>RunAtLoad</key>\n  <true/>\n  <key>KeepAlive</key>\n  <true/>\n",
    );
    if environment.len() > 0 {
        output.append("  <key>EnvironmentVariables</key>\n  <dict>\n");
        let ghost opened = output@;
        assert(all.take(0) =~= Seq::empty());
        assert(output@ =~= opened + plist_pairs(all.take(0)));
        for i in 0..environment.len()
            invariant
                all == variables(environment@),
                output@ == opened + plist_pairs(all.take(i as int)),
        {
            assert(all.take(i + 1).drop_last() =~= all.take(i as int));
            assert(all[i as int] == (environment@[i as int].0@, environment@[i as int].1@));
            let name = xml_escape(environment[i].0.as_str());
            let value = xml_escape(environment[i].1.as_str());
            output.append("    <key>");
            output.append(name.as_str());
            output.append("</key>\n    <string>");
            output.append(value.as_str());
            output.append("</string>\n");
            assert(output@ =~= opened + plist_pairs(all.take(i + 1)));
        }
        assert(all.take(all.len() as int) =~= all);
        output.append("  </dict>\n");
    }
    output.append("</dict>\n</plist>\n");
    assert(output@ =~= front + plist_tail(all));
    output
}

// ---------------------------------------------------------------- reading a service file

/// A string of a property list.
pub open spec fn xml_marker(argument: Seq<char>) -> Seq<char> {
    "<string>"@ + argument + "</string>"@
}

/// A quoted argument of a unit.
pub open spec fn unit_marker(argument: Seq<char>) -> Seq<char> {
    "\""@ + argument + "\""@
}

/// The service file holds the argument.
pub open spec fn holds_argument(contents: Seq<char>, argument: Seq<char>) -> bool {
    text::contains(contents, xml_marker(argument)) || text::contains(
        contents,
        unit_marker(argument),
    )
}

/// What stands between the first `open` at or after a place and the first `close`
/// after that.
pub open spec fn enclosed(
    contents: Seq<char>,
    from: int,
    open: Seq<char>,
    close: Seq<char>,
) -> Option<Seq<char>> {
    match text::find(contents, open, from) {
        Some(start) => match text::find(contents, close, start + open.len() as int) {
            Some(end) => Some(contents.subrange(start + open.len() as int, end)),
            None => None,
        },
        None => None,
    }
}

/// The value that follows an argument in a service file.
pub open spec fn value_after(contents: Seq<char>, argument: Seq<char>) -> Option<Seq<char>> {
    match text::find(contents, xml_marker(argument), 0) {
        Some(at) => enclosed(
            contents,
            at + xml_marker(argument).len() as int,
            "<string>"@,
            "</string>"@,
        ),
        None => match text::find(contents, unit_marker(argument), 0) {
            Some(at) => enclosed(
                contents,
                at + unit_marker(argument).len() as int,
                "\""@,
                "\""@,
            ),
            None => None,
        },
    }
}

/// Whether the service file holds the argument.
pub fn contains_argument(contents: &str, argument: &str) -> (answer: bool)
    ensures
        answer == holds_argument(contents@, argument@),
{
    let xml = text::concat3("<string>", argument, "</string>");
    let quoted = text::concat3("\"", argument, "\"");
    text::has(contents, xml.as_str()) || text::has(contents, quoted.as_str())
}

fn between(contents: &Vec<char>, from: usize, open: &str, close: &str) -> (value: Option<String>)
    requires
        from <= contents@.len(),
    ensures
        text::optional(value) == enclosed(contents@, from as int, open@, close@),
{
    let open_chars = text::chars_of(open);
    let close_chars = text::chars_of(close);
    assert(contents.len() == contents@.len());
    match text::find_in(contents, &open_chars, from) {
        Some(start) => {
            let inside = start + open_chars.len();
            match text::find_in(contents, &close_chars, inside) {
                Some(end) => {
                    proof {
                        text::find_is_first(contents@, close@, inside as int);
                    }
                    Some(text::text_between(contents, inside, end))
                },
                None => None,
            }
        },
        None => None,
    }
}

/// The value that follows an argument in a service file.
pub fn argument_value(contents: &str, argument: &str) -> (value: Option<String>)
    ensures
        text::optional(value) == value_after(contents@, argument@),
{
    let chars = text::chars_of(contents);
    let xml = text::concat3("<string>", argument, "</string>");
    let xml_chars = text::chars_of(xml.as_str());
    assert(chars.len() == chars@.len());
    if let Some(at) = text::find_in(&chars, &xml_chars, 0) {
        return between(&chars, at + xml_chars.len(), "<string>", "</string>");
    }
    let quoted = text::concat3("\"", argument, "\"");
    let quoted_chars = text::chars_of(quoted.as_str());
    match text::find_in(&chars, &quoted_chars, 0) {
        Some(at) => between(&chars, at + quoted_chars.len(), "\"", "\""),
        None => None,
    }
}

/// Where the installed service serves. Tailscale counts before an address; the
/// Tailscale address is looked up each time, as it can change. `valid` says whether
/// the address in the file is an IP address with a port.
pub open spec fn configured(contents: Seq<char>, valid: bool) -> Result<Target, Failure> {
    if holds_argument(contents, "--tailscale"@) {
        Ok(Target::Tailscale)
    } else {
        bind::target(value_after(contents, "--bind"@), valid, false)
    }
}

/// Where the installed service serves, if one is installed: `contents` is what its
/// file holds, if there is one, and `valid` says whether the address that
/// [`argument_value`] reads from it for `--bind` is an IP address with a port.
pub fn configured_endpoint(platform: Platform, contents: Option<&str>, valid: bool) -> (result:
    Result<Option<BindTarget>, Error>)
    ensures
        if contents is Some && has_services(platform) {
            match (configured(contents->0@, valid), result) {
                (Ok(target), Ok(Some(found))) => found@ == target,
                (Err(failure), Err(error)) => error@ == failure,
                _ => false,
            }
        } else {
            result matches Ok(None)
        },
{
    let contents = match contents {
        None => {
            return Ok(None);
        },
        Some(contents) => contents,
    };
    if platform != Platform::Macos && platform != Platform::Linux {
        return Ok(None);
    }
    let target = if contains_argument(contents, "--tailscale") {
        bind::parse_bind_address(None, valid, true)
    } else {
        let bind = argument_value(contents, "--bind");
        bind::parse_bind_address(text::borrow_optional(&bind), valid, false)
    };
    match target {
        Ok(target) => Ok(Some(target)),
        Err(error) => Err(error),
    }
}

/// A server that can be reached.
#[derive(Debug, PartialEq, Eq)]
pub struct ServerEndpoint {
    pub address: String,
    pub scheme: &'static str,
    pub requires_auth: bool,
}

/// The server at an address. Only a server on a loopback address asks for no
/// password.
pub fn server_endpoint(address: String, loopback: bool) -> (endpoint: ServerEndpoint)
    ensures
        endpoint.address@ == address@,
        endpoint.scheme@ == "http"@,
        endpoint.requires_auth == !loopback,
{
    ServerEndpoint { address, scheme: "http", requires_auth: !loopback }
}

// ---------------------------------------------------------------- commands

/// A command that manages the service.
#[derive(Debug, PartialEq, Eq)]
pub struct ServiceCommand {
    pub program: String,
    pub arguments: Vec<String>,
    /// Its failure is an error.
    pub required: bool,
    /// Its output is not shown.
    pub quiet: bool,
}

/// The view of a command that manages the service.
#[verifier::ext_equal]
pub struct CommandRow {
    pub program: Seq<char>,
    pub arguments: Seq<Seq<char>>,
    pub required: bool,
    pub quiet: bool,
}

impl View for ServiceCommand {
    type V = CommandRow;

    open spec fn view(&self) -> CommandRow {
        CommandRow {
            program: self.program@,
            arguments: text::texts(self.arguments@),
            required: self.required,
            quiet: self.quiet,
        }
    }
}

/// A command of systemd for the user.
pub open spec fn systemctl(arguments: Seq<Seq<char>>, required: bool) -> CommandRow {
    CommandRow {
        program: "systemctl"@,
        arguments: seq!["--user"@] + arguments,
        required,
        quiet: false,
    }
}

/// A command of launchd whose failure is an error.
pub open spec fn launchctl(arguments: Seq<Seq<char>>) -> CommandRow {
    CommandRow { program: "launchctl"@, arguments, required: true, quiet: false }
}

/// The command that takes the service out of launchd, if it is there.
pub open spec fn bootout(user: u32) -> CommandRow {
    CommandRow {
        program: "launchctl"@,
        arguments: seq!["bootout"@, service_target(user)],
        required: false,
        quiet: true,
    }
}

/// The launchd domain of a user.
pub open spec fn domain(user: u32) -> Seq<char> {
    "gui/"@ + text::decimal(user as nat)
}

/// The service in the launchd domain of a user.
pub open spec fn service_target(user: u32) -> Seq<char> {
    domain(user) + "/"@ + SERVICE_LABEL@
}

/// The commands that start the service after its file was written. A service that
/// runs already is replaced.
pub open spec fn install_commands(platform: Platform, user: u32, path: Seq<char>) -> Result<
    Seq<CommandRow>,
    Failure,
> {
    match platform {
        Platform::Macos => Ok(
            seq![
                bootout(user),
                launchctl(seq!["bootstrap"@, domain(user), path]),
                launchctl(seq!["enable"@, service_target(user)]),
                launchctl(seq!["kickstart"@, "-k"@, service_target(user)]),
            ],
        ),
        Platform::Linux => Ok(
            seq![
                systemctl(seq!["daemon-reload"@], true),
                systemctl(seq!["enable"@, "--now"@, "alx.service"@], true),
                systemctl(seq!["restart"@, "alx.service"@], true),
            ],
        ),
        _ => Err(Failure::Other(UNSUPPORTED@)),
    }
}

/// The command that shows the state of the service.
pub open spec fn status_commands(platform: Platform, user: u32) -> Result<
    Seq<CommandRow>,
    Failure,
> {
    match platform {
        Platform::Macos => Ok(seq![launchctl(seq!["print"@, service_target(user)])]),
        Platform::Linux => Ok(
            seq![systemctl(seq!["status"@, "alx.service"@, "--no-pager"@], true)],
        ),
        _ => Err(Failure::Other(UNSUPPORTED@)),
    }
}

/// The command that restarts the service.
pub open spec fn restart_commands(platform: Platform, user: u32) -> Result<
    Seq<CommandRow>,
    Failure,
> {
    match platform {
        Platform::Macos => Ok(seq![launchctl(seq!["kickstart"@, "-k"@, service_target(user)])]),
        Platform::Linux => Ok(seq![systemctl(seq!["restart"@, "alx.service"@], true)]),
        _ => Err(Failure::Other(UNSUPPORTED@)),
    }
}

/// The commands that stop the service before its file is removed.
pub open spec fn uninstall_commands(platform: Platform, user: u32) -> Result<
    Seq<CommandRow>,
    Failure,
> {
    match platform {
        Platform::Macos => Ok(seq![bootout(user)]),
        Platform::Linux => Ok(
            seq![
                systemctl(seq!["disable"@, "--now"@, "alx.service"@], false),
                systemctl(seq!["daemon-reload"@], true),
            ],
        ),
        _ => Err(Failure::Other(UNSUPPORTED@)),
    }
}

/// The views of a plan of commands.
pub open spec fn plan(result: Result<Vec<ServiceCommand>, Error>) -> Result<
    Seq<CommandRow>,
    Failure,
> {
    match result {
        Ok(commands) => Ok(model::rows(commands@)),
        Err(error) => Err(error@),
    }
}

fn domain_of(user: u32) -> (result: String)
    ensures
        result@ == domain(user),
{
    let digits = text::decimal_of(user as u128);
    text::concat2("gui/", digits.as_str())
}

fn target_of(user: u32) -> (result: String)
    ensures
        result@ == service_target(user),
{
    let domain = domain_of(user);
    text::concat3(domain.as_str(), "/", SERVICE_LABEL)
}

fn systemctl_of(arguments: &[&str], required: bool) -> (command: ServiceCommand)
    ensures
        command@ == systemctl(arguments@.map_values(|argument: &str| argument@), required),
{
    let mut list: Vec<String> = Vec::new();
    list.push("--user".to_owned());
    let ghost given = arguments@.map_values(|argument: &str| argument@);
    for i in 0..arguments.len()
        invariant
            list@.len() == i + 1,
            list@[0]@ == "--user"@,
            given == arguments@.map_values(|argument: &str| argument@),
            forall|j: int| 0 <= j < i ==> (#[trigger] list@[j + 1])@ == given[j],
    {
        list.push(arguments[i].to_owned());
    }
    assert(text::texts(list@) =~= seq!["--user"@] + given) by {
        assert forall|k: int| 0 <= k < list@.len() implies (#[trigger] text::texts(list@)[k]) == (
        seq!["--user"@] + given)[k] by {
            if k > 0 {
                assert(list@[(k - 1) + 1]@ == given[k - 1]);
            }
        }
    }
    ServiceCommand { program: "systemctl".to_owned(), arguments: list, required, quiet: false }
}

fn launchctl_of(arguments: Vec<String>) -> (command: ServiceCommand)
    ensures
        command@ == launchctl(text::texts(arguments@)),
{
    ServiceCommand { program: "launchctl".to_owned(), arguments, required: true, quiet: false }
}

fn bootout_of(user: u32) -> (command: ServiceCommand)
    ensures
        command@ == bootout(user),
{
    let arguments = vec!["bootout".to_owned(), target_of(user)];
    assert(text::texts(arguments@) =~= seq!["bootout"@, service_target(user)]);
    ServiceCommand { program: "launchctl".to_owned(), arguments, required: false, quiet: true }
}

/// The commands that start the service after its file was written to `path`.
pub fn install(platform: Platform, user: u32, path: &str) -> (result: Result<
    Vec<ServiceCommand>,
    Error,
>)
    ensures
        plan(result) == install_commands(platform, user, path@),
{
    match platform {
        Platform::Macos => {
            let bootstrap = vec!["bootstrap".to_owned(), domain_of(user), path.to_owned()];
            let enable = vec!["enable".to_owned(), target_of(user)];
            let kickstart = vec!["kickstart".to_owned(), "-k".to_owned(), target_of(user)];
            assert(text::texts(bootstrap@) =~= seq!["bootstrap"@, domain(user), path@]);
            assert(text::texts(enable@) =~= seq!["enable"@, service_target(user)]);
            assert(text::texts(kickstart@) =~= seq!["kickstart"@, "-k"@, service_target(user)]);
            let commands = vec![
                bootout_of(user),
                launchctl_of(bootstrap),
                launchctl_of(enable),
                launchctl_of(kickstart),
            ];
            assert(model::rows(commands@) =~= install_commands(platform, user, path@)->Ok_0);
            Ok(commands)
        },
        Platform::Linux => {
            let commands = vec![
                systemctl_of(&["daemon-reload"], true),
                systemctl_of(&["enable", "--now", "alx.service"], true),
                systemctl_of(&["restart", "alx.service"], true),
            ];
            assert(model::rows(commands@) =~~= install_commands(platform, user, path@)->Ok_0);
            Ok(commands)
        },
        _ => Err(other(UNSUPPORTED.to_owned())),
    }
}

/// The command that shows the state of the service.
pub fn status(platform: Platform, user: u32) -> (result: Result<Vec<ServiceCommand>, Error>)
    ensures
        plan(result) == status_commands(platform, user),
{
    match platform {
        Platform::Macos => {
            let arguments = vec!["print".to_owned(), target_of(user)];
            assert(text::texts(arguments@) =~= seq!["print"@, service_target(user)]);
            let commands = vec![launchctl_of(arguments)];
            assert(model::rows(commands@) =~= status_commands(platform, user)->Ok_0);
            Ok(commands)
        },
        Platform::Linux => {
            let commands = vec![systemctl_of(&["status", "alx.service", "--no-pager"], true)];
            assert(model::rows(commands@) =~~= status_commands(platform, user)->Ok_0);
            Ok(commands)
        },
        _ => Err(other(UNSUPPORTED.to_owned())),
    }
}

/// The command that restarts the service.
pub fn restart(platform: Platform, user: u32) -> (result: Result<Vec<ServiceCommand>, Error>)
    ensures
        plan(result) == restart_commands(platform, user),
{
    match platform {
        Platform::Macos => {
            let arguments = vec!["kickstart".to_owned(), "-k".to_owned(), target_of(user)];
            assert(text::texts(arguments@) =~= seq!["kickstart"@, "-k"@, service_target(user)]);
            let commands = vec![launchctl_of(arguments)];
            assert(model::rows(commands@) =~= restart_commands(platform, user)->Ok_0);
            Ok(commands)
        },
        Platform::Linux => {
            let commands = vec![systemctl_of(&["restart", "alx.service"], true)];
            assert(model::rows(commands@) =~~= restart_commands(platform, user)->Ok_0);
            Ok(commands)
        },
        _ => Err(other(UNSUPPORTED.to_owned())),
    }
}

/// The commands that stop the service before its file is removed.
pub fn uninstall(platform: Platform, user: u32) -> (result: Result<Vec<ServiceCommand>, Error>)
    ensures
        plan(result) == uninstall_commands(platform, user),
{
    match platform {
        Platform::Macos => {
            let commands = vec![bootout_of(user)];
            assert(model::rows(commands@) =~= uninstall_commands(platform, user)->Ok_0);
            Ok(commands)
        },
        Platform::Linux => {
            let commands = vec![
                systemctl_of(&["disable", "--now", "alx.service"], false),
                systemctl_of(&["daemon-reload"], true),
            ];
            assert(model::rows(commands@) =~~= uninstall_commands(platform, user)->Ok_0);
            Ok(commands)
        },
        _ => Err(other(UNSUPPORTED.to_owned())),
    }
}

/// What is reported of a command that failed.
pub fn command_failure(command: &ServiceCommand, status: &str) -> (message: String)
    ensures
        message@ == command@.program + " "@ + text::join(command@.arguments, " "@)
            + " failed with "@ + status@,
{
    let arguments = text::joined(&command.arguments, " ");
    let mut message = text::concat3(command.program.as_str(), " ", arguments.as_str());
    message.append(" failed with ");
    message.append(status);
    message
}

/// The directory that the path of the service file starts from.
#[derive(Clone, Copy, Debug, PartialEq, Eq, Structural)]
pub enum BaseDirectory {
    Home,
    Config,
}

/// The components of the path of the service file below its base directory.
pub open spec fn service_path(platform: Platform) -> Result<
    (BaseDirectory, Seq<Seq<char>>),
    Failure,
> {
    match platform {
        Platform::Macos => Ok(
            (
                BaseDirectory::Home,
                seq!["Library"@, "LaunchAgents"@, SERVICE_LABEL@ + ".plist"@],
            ),
        ),
        Platform::Linux => Ok(
            (BaseDirectory::Config, seq!["systemd"@, "user"@, "alx.service"@]),
        ),
        _ => Err(Failure::Other(UNSUPPORTED@)),
    }
}

/// Where the service file is kept.
pub fn service_file_path(platform: Platform) -> (result: Result<
    (BaseDirectory, Vec<String>),
    Error,
>)
    ensures
        match (service_path(platform), result) {
            (Ok(place), Ok(found)) => found.0 == place.0 && text::texts(found.1@) == place.1,
            (Err(failure), Err(error)) => error@ == failure,
            _ => false,
        },
{
    match platform {
        Platform::Macos => {
            let components = vec![
                "Library".to_owned(),
                "LaunchAgents".to_owned(),
                text::concat2(SERVICE_LABEL, ".plist"),
            ];
            assert(text::texts(components@) =~= service_path(platform)->Ok_0.1);
            Ok((BaseDirectory::Home, components))
        },
        Platform::Linux => {
            let components = vec![
                "systemd".to_owned(),
                "user".to_owned(),
                "alx.service".to_owned(),
            ];
            assert(text::texts(components@) =~= service_path(platform)->Ok_0.1);
            Ok((BaseDirectory::Config, components))
        },
        _ => Err(other(UNSUPPORTED.to_owned())),
    }
}

/// What the service file holds.
pub open spec fn service_file(
    platform: Platform,
    executable: Seq<char>,
    arguments: Seq<Seq<char>>,
    environment: Seq<(Seq<char>, Seq<char>)>,
) -> Result<Seq<char>, Failure> {
    match platform {
        Platform::Macos => Ok(plist(executable, arguments, environment)),
        Platform::Linux => Ok(unit(executable, arguments, environment)),
        _ => Err(Failure::Other(UNSUPPORTED@)),
    }
}

/// What the service file holds.
pub fn service_file_contents(
    platform: Platform,
    executable: &str,
    options: &InstallOptions,
    environment: &Vec<(String, String)>,
) -> (result: Result<String, Error>)
    ensures
        error::viewed(result) == service_file(
            platform,
            executable@,
            arguments(options.bind(), options.tailscale),
            variables(environment@),
        ),
{
    match platform {
        Platform::Macos => Ok(launchd_plist(executable, options, environment)),
        Platform::Linux => Ok(systemd_unit(executable, options, environment)),
        _ => Err(other(UNSUPPORTED.to_owned())),
    }
}

} // verus!

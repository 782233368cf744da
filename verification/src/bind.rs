//! The address to serve on.

use vstd::prelude::*;

use crate::error;
use crate::error::{other, Error, Failure};
use crate::text;

verus! {

/// The address that is served on where none is given.
pub const DEFAULT_BIND: &'static str = "127.0.0.1:3000";

/// Where to serve.
#[derive(Debug, PartialEq, Eq)]
pub enum BindTarget {
    /// The Tailscale address of this machine.
    Tailscale,
    /// The address that the text writes out.
    Address(String),
}

/// The view of where to serve.
pub enum Target {
    Tailscale,
    Address(Seq<char>),
}

impl View for BindTarget {
    type V = Target;

    open spec fn view(&self) -> Target {
        match self {
            BindTarget::Tailscale => Target::Tailscale,
            BindTarget::Address(address) => Target::Address(address@),
        }
    }
}

/// Where to serve: on the given address, on the Tailscale address, or by default
/// on this machine alone. `valid` says whether the given address is an IP address
/// with a port.
pub open spec fn target(bind: Option<Seq<char>>, valid: bool, tailscale: bool) -> Result<
    Target,
    Failure,
> {
    match bind {
        Some(bind) => if tailscale {
            Err(Failure::Other("--bind cannot be used with --tailscale"@))
        } else if !valid {
            Err(Failure::Other("invalid bind address; expected IP:PORT"@))
        } else {
            Ok(Target::Address(bind))
        },
        None => if tailscale {
            Ok(Target::Tailscale)
        } else {
            Ok(Target::Address(DEFAULT_BIND@))
        },
    }
}

/// Where to serve. `valid` says whether the given address is an IP address with a
/// port.
pub fn parse_bind_address(bind: Option<&str>, valid: bool, tailscale: bool) -> (result: Result<
    BindTarget,
    Error,
>)
    ensures
        error::viewed(result) == target(text::optional_str(bind), valid, tailscale),
{
    match bind {
        Some(bind) => if tailscale {
            Err(other("--bind cannot be used with --tailscale".to_owned()))
        } else if !valid {
            Err(other("invalid bind address; expected IP:PORT".to_owned()))
        } else {
            Ok(BindTarget::Address(bind.to_owned()))
        },
        None => if tailscale {
            Ok(BindTarget::Tailscale)
        } else {
            Ok(BindTarget::Address(DEFAULT_BIND.to_owned()))
        },
    }
}

/// The address that counts: options after the subcommand count before those in
/// front of it.
pub open spec fn preferred(first: Option<Seq<char>>, second: Option<Seq<char>>) -> Option<
    Seq<char>,
> {
    match first {
        Some(bind) => Some(bind),
        None => second,
    }
}

/// How the service is to be started: an address rules out Tailscale and must be an
/// IP address with a port, as `valid` says.
pub open spec fn merged(
    first: Option<Seq<char>>,
    second: Option<Seq<char>>,
    valid: bool,
    tailscale: bool,
) -> Result<Option<Seq<char>>, Failure> {
    let bind = preferred(first, second);
    if bind is Some && tailscale {
        Err(Failure::Other("--bind cannot be used with --tailscale"@))
    } else if bind is Some && !valid {
        Err(Failure::Other("invalid bind address; expected IP:PORT"@))
    } else {
        Ok(bind)
    }
}

/// The address to start the service with, if any. `valid` says whether the one that
/// counts is an IP address with a port.
pub fn merge_bind(
    install_bind: Option<String>,
    foreground_bind: Option<String>,
    valid: bool,
    install_tailscale: bool,
    foreground_tailscale: bool,
) -> (result: Result<Option<String>, Error>)
    ensures
        match (
            merged(
                text::optional(install_bind),
                text::optional(foreground_bind),
                valid,
                install_tailscale || foreground_tailscale,
            ),
            result,
        ) {
            (Ok(bind), Ok(chosen)) => text::optional(chosen) == bind,
            (Err(failure), Err(error)) => error@ == failure,
            _ => false,
        },
{
    let bind = match install_bind {
        Some(bind) => Some(bind),
        None => foreground_bind,
    };
    if bind.is_some() && (install_tailscale || foreground_tailscale) {
        return Err(other("--bind cannot be used with --tailscale".to_owned()));
    }
    if bind.is_some() {
        // Whether Tailscale has an address is asked only when the service starts.
        match parse_bind_address(text::borrow_optional(&bind), valid, false) {
            Err(error) => {
                return Err(error);
            },
            Ok(_) => {},
        }
    }
    Ok(bind)
}

// ---------------------------------------------------------------- Tailscale

/// The lines that `tailscale ip -4` printed, without the white space around them.
pub open spec fn address_lines(
    success: bool,
    stdout: Seq<char>,
    stderr: Seq<char>,
) -> Result<Seq<Seq<char>>, Failure> {
    if success {
        Ok(text::lines(stdout).map_values(|line: Seq<char>| text::trim(line)))
    } else {
        Err(Failure::Other("'tailscale ip -4' failed: "@ + text::trim(stderr)))
    }
}

/// The lines that `tailscale ip -4` printed, or the error that it reported.
pub fn tailscale_lines(success: bool, stdout: &str, stderr: &str) -> (result: Result<
    Vec<String>,
    Error,
>)
    ensures
        match (address_lines(success, stdout@, stderr@), result) {
            (Ok(lines), Ok(found)) => text::texts(found@) == lines,
            (Err(failure), Err(error)) => error@ == failure,
            _ => false,
        },
{
    if !success {
        let reason = text::trimmed(stderr);
        return Err(other(text::concat2("'tailscale ip -4' failed: ", reason.as_str())));
    }
    let lines = text::lines_of(stdout);
    let ghost all = text::lines(stdout@);
    let mut found: Vec<String> = Vec::new();
    for i in 0..lines.len()
        invariant
            all == text::texts(lines@),
            found@.len() == i,
            forall|j: int| 0 <= j < i ==> (#[trigger] found@[j])@ == text::trim(all[j]),
    {
        assert(all[i as int] == lines@[i as int]@);
        found.push(text::trimmed(lines[i].as_str()));
    }
    assert(text::texts(found@) =~= all.map_values(|line: Seq<char>| text::trim(line)));
    Ok(found)
}

/// The first line that is an address, with the port to serve on.
pub open spec fn first_valid(lines: Seq<Seq<char>>, valid: Seq<bool>) -> Result<
    Seq<char>,
    Failure,
>
    decreases lines.len(),
{
    if lines.len() == 0 {
        Err(Failure::Other("'tailscale ip -4' returned no valid IPv4 address"@))
    } else if valid[0] {
        Ok(lines[0] + ":3000"@)
    } else {
        first_valid(lines.drop_first(), valid.drop_first())
    }
}

/// The first line that is an address, with the port to serve on. `valid` says of
/// each line whether it is one.
pub fn tailscale_address(lines: &Vec<String>, valid: &Vec<bool>) -> (result: Result<String, Error>)
    requires
        valid@.len() == lines@.len(),
    ensures
        error::viewed(result) == first_valid(text::texts(lines@), valid@),
{
    let ghost all = text::texts(lines@);
    assert(all.skip(0) =~= all);
    assert(valid@.skip(0) =~= valid@);
    for i in 0..lines.len()
        invariant
            valid@.len() == lines@.len(),
            all == text::texts(lines@),
            first_valid(all.skip(i as int), valid@.skip(i as int)) == first_valid(all, valid@),
    {
        assert(all.skip(i as int)[0] == lines@[i as int]@);
        assert(valid@.skip(i as int)[0] == valid@[i as int]);
        if valid[i] {
            return Ok(text::concat2(lines[i].as_str(), ":3000"));
        }
        assert(all.skip(i as int).drop_first() =~= all.skip(i + 1));
        assert(valid@.skip(i as int).drop_first() =~= valid@.skip(i + 1));
    }
    Err(other("'tailscale ip -4' returned no valid IPv4 address".to_owned()))
}

} // verus!

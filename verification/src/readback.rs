//! What a service file was written with is read back from it.

use vstd::prelude::*;

use crate::bind::Target;
use crate::error::Failure;
use crate::service;
use crate::text;

verus! {

/// A character does not occur in a text from a place on.
spec fn lacks_from(value: Seq<char>, c: char, from: int) -> bool
    decreases value.len() - from,
{
    if from < 0 || from >= value.len() {
        true
    } else {
        value[from] != c && lacks_from(value, c, from + 1)
    }
}

proof fn lacks_everywhere(value: Seq<char>, c: char, from: int, i: int)
    requires
        lacks_from(value, c, from),
        0 <= from <= i < value.len(),
    ensures
        value[i] != c,
    decreases i - from,
{
    if from < i {
        lacks_everywhere(value, c, from + 1, i);
    }
}

/// The first place of a pattern, where it is known that it does not stand earlier.
proof fn found_first(contents: Seq<char>, pattern: Seq<char>, from: int, at: int)
    requires
        0 <= from <= at,
        text::occurs_at(contents, pattern, at),
        forall|i: int| from <= i < at ==> !text::occurs_at(contents, pattern, i),
    ensures
        text::find(contents, pattern, from) == Some(at),
{
    text::find_is_first(contents, pattern, from);
}

/// A character that stands as itself in a quoted value of a systemd unit.
pub open spec fn is_plain(c: char) -> bool {
    c != '\\' && c != '"' && c != '\n' && c != '\r' && c != '\t' && c != '$' && c != '%'
        && !text::is_control(c)
}

proof fn plain_is_kept(value: Seq<char>)
    requires
        forall|i: int| 0 <= i < value.len() ==> is_plain(#[trigger] value[i]),
    ensures
        service::systemd_escaped(value) == value,
    decreases value.len(),
{
    if value.len() > 0 {
        let front = value.drop_last();
        assert forall|i: int| 0 <= i < front.len() implies is_plain(#[trigger] front[i]) by {
            assert(front[i] == value[i]);
        }
        plain_is_kept(front);
        assert(is_plain(value[value.len() - 1]));
        assert(service::systemd_escaped(value) =~= front + seq![value.last()]);
        assert(front + seq![value.last()] =~= value);
    } else {
        assert(service::systemd_escaped(value) =~= value);
    }
}

proof fn head_has_no_quote(i: int)
    requires
        0 <= i < service::systemd_head().len(),
    ensures
        service::systemd_head()[i] != '"',
{
    reveal_strlit(
        "[Unit]\nDescription=alx web service\nAfter=default.target\n\n[Service]\nExecStart=",
    );
    reveal_with_fuel(lacks_from, 90);
    assert(lacks_from(service::systemd_head(), '"', 0));
    lacks_everywhere(service::systemd_head(), '"', 0, i);
}

/// The command line of a unit that binds an address.
proof fn command_with_bind(executable: Seq<char>, bind: Seq<char>)
    ensures
        service::systemd_command(executable, service::arguments(Some(bind), false))
            == service::systemd_quoted(executable) + " "@ + service::systemd_quoted("serve"@)
            + " "@ + service::systemd_quoted("--bind"@) + " "@ + service::systemd_quoted(bind),
{
    let three = seq!["serve"@, "--bind"@, bind];
    let two = seq!["serve"@, "--bind"@];
    let one = seq!["serve"@];
    assert(three.drop_last() =~= two);
    assert(two.drop_last() =~= one);
    assert(one.drop_last() =~= Seq::<Seq<char>>::empty());
    let none = Seq::<Seq<char>>::empty();
    let first = service::systemd_quoted(executable);
    assert(service::systemd_command(executable, none) == first);
    assert(one.last() == "serve"@);
    assert(service::systemd_command(executable, one) == first + " "@ + service::systemd_quoted(
        "serve"@,
    ));
    assert(two.last() == "--bind"@);
    assert(service::systemd_command(executable, two) == first + " "@ + service::systemd_quoted(
        "serve"@,
    ) + " "@ + service::systemd_quoted("--bind"@));
    assert(three.last() == bind);
}

proof fn quoted_words()
    ensures
        service::systemd_quoted("serve"@) == "\"serve\""@,
        service::systemd_quoted("--bind"@) == "\"--bind\""@,
        service::unit_marker("--bind"@) == "\"--bind\""@,
        service::systemd_quoted("--tailscale"@) == service::unit_marker("--tailscale"@),
{
    reveal_strlit("serve");
    reveal_strlit("--bind");
    reveal_strlit("--tailscale");
    reveal_strlit("\"");
    reveal_strlit("\"serve\"");
    reveal_strlit("\"--bind\"");
    plain_is_kept("serve"@);
    plain_is_kept("--bind"@);
    plain_is_kept("--tailscale"@);
    assert(service::systemd_quoted("serve"@) =~= "\"serve\""@);
    assert(service::systemd_quoted("--bind"@) =~= "\"--bind\""@);
    assert(service::unit_marker("--bind"@) =~= "\"--bind\""@);
}

/// The argument does not stand before its place in a unit.
proof fn no_argument_before(
    contents: Seq<char>,
    head: Seq<char>,
    quoted: Seq<char>,
    rest: Seq<char>,
    i: int,
)
    requires
        contents == head + quoted + " \"serve\" "@ + rest,
        forall|k: int| 0 <= k < head.len() ==> head[k] != '"',
        quoted.len() > 0,
        quoted.last() == '"',
        !text::contains(quoted, "\"--bind\""@),
        0 <= i < head.len() + quoted.len() + 9,
    ensures
        !text::occurs_at(contents, "\"--bind\""@, i),
{
    let marker = "\"--bind\""@;
    reveal_strlit(" \"serve\" ");
    reveal_strlit("\"--bind\"");
    let h = head.len() as int;
    let n = quoted.len() as int;
    if text::occurs_at(contents, marker, i) {
        assert forall|k: int| 0 <= k < 8 implies contents[i + k] == marker[k] by {
            assert(contents.subrange(i, i + 8)[k] == contents[i + k]);
        }
        assert(contents[i + 0] == marker[0]);
        assert(contents[i + 1] == marker[1]);
        if i < h {
            assert(contents[i] == head[i]);
        } else if i < h + n {
            let j = i - h;
            if j + 8 <= n {
                assert(quoted.subrange(j, j + 8) =~= marker) by {
                    assert forall|k: int| 0 <= k < 8 implies quoted[j + k] == marker[k] by {
                        assert(contents[i + k] == quoted[j + k]);
                    }
                }
                text::find_is_first(quoted, marker, 0);
                assert(text::occurs_at(quoted, marker, j));
            } else if j == n - 1 {
                assert(contents[h + n] == " \"serve\" "@[0]);
            } else {
                let k = n - 1 - j;
                assert(contents[i + k] == quoted[n - 1]);
                assert(contents[i + k] == marker[k]);
            }
        } else {
            let j = i - h - n;
            assert(contents[i] == " \"serve\" "@[j]);
            if j < 8 {
                assert(contents[i + 1] == " \"serve\" "@[j + 1]);
            }
        }
    }
}

/// What stands between quotes is read.
proof fn enclosed_in_quotes(contents: Seq<char>, front: Seq<char>, value: Seq<char>, rest: Seq<char>)
    requires
        contents == front + " \""@ + value + "\""@ + rest,
        forall|k: int| 0 <= k < value.len() ==> value[k] != '"',
    ensures
        service::enclosed(contents, front.len() as int, "\""@, "\""@) == Some(value),
{
    let quote = "\""@;
    reveal_strlit("\"");
    reveal_strlit(" \"");
    let at = front.len() as int;
    assert(contents[at] == " \""@[0]);
    assert(contents[at + 1] == " \""@[1]);
    assert(text::occurs_at(contents, quote, at + 1)) by {
        assert(contents.subrange(at + 1, at + 2) =~= quote);
    }
    assert(!text::occurs_at(contents, quote, at)) by {
        assert(contents.subrange(at, at + 1)[0] == ' ');
    }
    found_first(contents, quote, at, at + 1);
    let inside = at + 2;
    let end = inside + value.len() as int;
    assert(contents[end] == quote[0]);
    assert(text::occurs_at(contents, quote, end)) by {
        assert(contents.subrange(end, end + 1) =~= quote);
    }
    assert forall|i: int| inside <= i < end implies !text::occurs_at(contents, quote, i) by {
        assert(contents[i] == value[i - inside]);
        assert(contents.subrange(i, i + 1)[0] == contents[i]);
    }
    found_first(contents, quote, inside, end);
    assert(contents.subrange(inside, end) =~= value);
}

proof fn regroup(
    a: Seq<char>,
    b: Seq<char>,
    c: Seq<char>,
    d: Seq<char>,
    e: Seq<char>,
    f: Seq<char>,
)
    ensures
        a + (b + (c + d + e + f)) == (a + b) + c + d + e + f,
{
    assert(a + (b + (c + d + e + f)) =~= (a + b) + c + d + e + f);
}

/// The parts of a unit that binds an address.
proof fn unit_layout(
    executable: Seq<char>,
    bind: Seq<char>,
    environment: Seq<(Seq<char>, Seq<char>)>,
)
    requires
        forall|i: int| 0 <= i < bind.len() ==> is_plain(#[trigger] bind[i]),
    ensures
        service::unit(executable, service::arguments(Some(bind), false), environment)
            == service::systemd_head() + service::systemd_quoted(executable) + " \"serve\" "@ + (
        "\"--bind\""@ + (" \""@ + bind + "\""@ + service::systemd_tail(environment))),
{
    command_with_bind(executable, bind);
    quoted_words();
    plain_is_kept(bind);
    let space = " "@;
    let quote = "\""@;
    let serve = "\"serve\""@;
    let marker = "\"--bind\""@;
    reveal_strlit(" ");
    reveal_strlit("\"");
    reveal_strlit(" \"");
    reveal_strlit("\"serve\"");
    reveal_strlit(" \"serve\" ");
    assert(space + serve + space =~= " \"serve\" "@);
    assert(space + quote =~= " \""@);
    layout(
        service::systemd_head(),
        service::systemd_quoted(executable),
        space,
        serve,
        marker,
        quote,
        bind,
        service::systemd_tail(environment),
    );
}

proof fn layout(
    head: Seq<char>,
    quoted: Seq<char>,
    space: Seq<char>,
    serve: Seq<char>,
    marker: Seq<char>,
    quote: Seq<char>,
    value: Seq<char>,
    tail: Seq<char>,
)
    ensures
        head + (quoted + space + serve + space + marker + space + (quote + value + quote)) + tail
            == head + quoted + (space + serve + space) + (marker + ((space + quote) + value + quote
            + tail)),
{
    assert(head + (quoted + space + serve + space + marker + space + (quote + value + quote)) + tail
        =~= head + quoted + (space + serve + space) + (marker + ((space + quote) + value + quote
        + tail)));
}

/// The address that a systemd unit was written with is the value of its argument.
/// The other parts of the unit must not look like the argument that is sought.
pub proof fn unit_argument_is_read_back(
    executable: Seq<char>,
    bind: Seq<char>,
    environment: Seq<(Seq<char>, Seq<char>)>,
)
    requires
        forall|i: int| 0 <= i < bind.len() ==> is_plain(#[trigger] bind[i]),
        !text::contains(
            service::systemd_quoted(executable),
            service::unit_marker("--bind"@),
        ),
        !text::contains(
            service::unit(executable, service::arguments(Some(bind), false), environment),
            service::xml_marker("--bind"@),
        ),
    ensures
        service::value_after(
            service::unit(executable, service::arguments(Some(bind), false), environment),
            "--bind"@,
        ) == Some(bind),
{
    let contents = service::unit(
        executable,
        service::arguments(Some(bind), false),
        environment,
    );
    let marker = "\"--bind\""@;
    let head = service::systemd_head();
    let quoted = service::systemd_quoted(executable);
    let tail = service::systemd_tail(environment);
    let front = head + quoted + " \"serve\" "@;
    let rest = marker + (" \""@ + bind + "\""@ + tail);
    let at = front.len() as int;
    quoted_words();
    unit_layout(executable, bind, environment);
    assert(quoted.len() > 0) by {
        reveal_strlit("\"");
    }
    assert(marker.len() == 8) by {
        reveal_strlit("\"--bind\"");
    }
    assert(" \"serve\" "@.len() == 9) by {
        reveal_strlit(" \"serve\" ");
    }
    assert(quoted.last() == '"') by {
        reveal_strlit("\"");
    }
    assert forall|k: int| 0 <= k < head.len() implies head[k] != '"' by {
        head_has_no_quote(k);
    }
    assert forall|i: int| 0 <= i < at implies !text::occurs_at(contents, marker, i) by {
        no_argument_before(contents, head, quoted, rest, i);
    }
    assert(text::occurs_at(contents, marker, at)) by {
        assert(contents.subrange(at, at + 8) =~= marker);
    }
    found_first(contents, marker, 0, at);
    text::find_is_first(contents, service::xml_marker("--bind"@), 0);
    regroup(front, marker, " \""@, bind, "\""@, tail);
    enclosed_in_quotes(contents, front + marker, bind, tail);
}

/// An address that a systemd unit was written with is read back from it. The
/// other parts of the unit must not look like the arguments that are sought.
pub proof fn unit_bind_is_read_back(
    executable: Seq<char>,
    bind: Seq<char>,
    environment: Seq<(Seq<char>, Seq<char>)>,
)
    requires
        forall|i: int| 0 <= i < bind.len() ==> is_plain(#[trigger] bind[i]),
        !text::contains(
            service::systemd_quoted(executable),
            service::unit_marker("--bind"@),
        ),
        ({
            let contents = service::unit(
                executable,
                service::arguments(Some(bind), false),
                environment,
            );
            &&& !service::holds_argument(contents, "--tailscale"@)
            &&& !text::contains(contents, service::xml_marker("--bind"@))
        }),
    ensures
        service::configured(
            service::unit(executable, service::arguments(Some(bind), false), environment),
            true,
        ) == Ok::<Target, Failure>(Target::Address(bind)),
{
    unit_argument_is_read_back(executable, bind, environment);
}

/// A systemd unit that was written for Tailscale is read as one.
pub proof fn unit_tailscale_is_read_back(
    executable: Seq<char>,
    environment: Seq<(Seq<char>, Seq<char>)>,
)
    ensures
        forall|valid: bool| #[trigger]
            service::configured(
                service::unit(executable, service::arguments(None, true), environment),
                valid,
            ) == Ok::<Target, Failure>(Target::Tailscale),
{
    let arguments = service::arguments(None, true);
    let contents = service::unit(executable, arguments, environment);
    let marker = service::unit_marker("--tailscale"@);
    let one = seq!["serve"@];
    assert(arguments.drop_last() =~= one);
    quoted_words();
    let front = service::systemd_head() + (service::systemd_command(executable, one) + " "@);
    let tail = service::systemd_tail(environment);
    assert(contents =~= front + marker + tail);
    let at = front.len() as int;
    assert(contents.subrange(at, at + marker.len()) =~= marker);
    assert(text::occurs_at(contents, marker, at));
    text::find_is_first(contents, marker, 0);
}

// ---------------------------------------------------------------- launchd

/// No tag that begins with `s` opens between two places.
spec fn opens_none(value: Seq<char>, from: int, to: int) -> bool
    decreases to - from,
{
    if from >= to {
        true
    } else {
        !(value[from] == '<' && value[from + 1] == 's') && opens_none(value, from + 1, to)
    }
}

proof fn opens_nowhere(value: Seq<char>, from: int, to: int, i: int)
    requires
        opens_none(value, from, to),
        from <= i < to,
    ensures
        !(value[i] == '<' && value[i + 1] == 's'),
    decreases i - from,
{
    if from < i {
        opens_nowhere(value, from + 1, to, i);
    }
}

proof fn plist_start_opens_one(i: int)
    requires
        0 <= i < 200,
    ensures
        ({
            let start = "<?xml version=\"1.0\" encoding=\"UTF-8\"?>\n<!DOCTYPE plist PUBLIC \"-//Apple//DTD PLIST 1.0//EN\" \"http://www.apple.com/DTDs/PropertyList-1.0.dtd\">\n<plist version=\"1.0\">\n<dict>\n  <key>Label</key>\n  <string>"@;
            &&& start.len() == 200
            &&& i < 192 ==> !(start[i] == '<' && start[i + 1] == 's')
            &&& i > 192 ==> start[i] != '<'
        }),
{
    reveal_strlit(
        "<?xml version=\"1.0\" encoding=\"UTF-8\"?>\n<!DOCTYPE plist PUBLIC \"-//Apple//DTD PLIST 1.0//EN\" \"http://www.apple.com/DTDs/PropertyList-1.0.dtd\">\n<plist version=\"1.0\">\n<dict>\n  <key>Label</key>\n  <string>",
    );
    let start = "<?xml version=\"1.0\" encoding=\"UTF-8\"?>\n<!DOCTYPE plist PUBLIC \"-//Apple//DTD PLIST 1.0//EN\" \"http://www.apple.com/DTDs/PropertyList-1.0.dtd\">\n<plist version=\"1.0\">\n<dict>\n  <key>Label</key>\n  <string>"@;
    reveal_with_fuel(opens_none, 52);
    assert(opens_none(start, 144, 192));
    assert(opens_none(start, 96, 192));
    assert(opens_none(start, 48, 192));
    assert(opens_none(start, 0, 192));
    if i < 192 {
        opens_nowhere(start, 0, 192, i);
    }
}

proof fn xml_opens_no_tag(value: Seq<char>, i: int)
    requires
        0 <= i < service::xml_escaped(value).len(),
    ensures
        service::xml_escaped(value)[i] != '<',
    decreases value.len(),
{
    reveal_strlit("&amp;");
    reveal_strlit("&lt;");
    reveal_strlit("&gt;");
    reveal_strlit("&quot;");
    reveal_strlit("&apos;");
    if value.len() > 0 {
        let front = service::xml_escaped(value.drop_last());
        let last = service::xml_char(value.last());
        assert(service::xml_escaped(value) == front + last);
        if i < front.len() {
            xml_opens_no_tag(value.drop_last(), i);
        } else {
            assert(service::xml_escaped(value)[i] == last[i - front.len()]);
        }
    }
}

/// A character that stands as itself in XML.
pub open spec fn is_xml_plain(c: char) -> bool {
    c != '&' && c != '<' && c != '>' && c != '"' && c != '\''
}

proof fn xml_plain_is_kept(value: Seq<char>)
    requires
        forall|i: int| 0 <= i < value.len() ==> is_xml_plain(#[trigger] value[i]),
    ensures
        service::xml_escaped(value) == value,
    decreases value.len(),
{
    if value.len() > 0 {
        let front = value.drop_last();
        assert forall|i: int| 0 <= i < front.len() implies is_xml_plain(#[trigger] front[i]) by {
            assert(front[i] == value[i]);
        }
        xml_plain_is_kept(front);
        assert(is_xml_plain(value[value.len() - 1]));
        assert(service::xml_escaped(value) =~= front + seq![value.last()]);
        assert(front + seq![value.last()] =~= value);
    } else {
        assert(service::xml_escaped(value) =~= value);
    }
}

/// The only string before the arguments is the label of the service.
proof fn plist_head_opens_one(i: int)
    requires
        0 <= i < service::plist_head().len(),
        service::plist_head()[i] == '<',
    ensures
        i + 1 < service::plist_head().len(),
        service::plist_head()[i + 1] == 's' ==> i == 192 && service::plist_head()[200] == 'c',
        service::plist_head().len() > 208,
{
    let head = service::plist_head();
    let start = "<?xml version=\"1.0\" encoding=\"UTF-8\"?>\n<!DOCTYPE plist PUBLIC \"-//Apple//DTD PLIST 1.0//EN\" \"http://www.apple.com/DTDs/PropertyList-1.0.dtd\">\n<plist version=\"1.0\">\n<dict>\n  <key>Label</key>\n  <string>"@;
    let label = service::SERVICE_LABEL@;
    let end = "</string>\n  <key>ProgramArguments</key>\n  <array>\n"@;
    reveal_strlit("com.alx.serve");
    reveal_strlit("</string>\n  <key>ProgramArguments</key>\n  <array>\n");
    xml_plain_is_kept(label);
    plist_start_opens_one(0);
    assert(head == start + label + end);
    if i < 200 {
        plist_start_opens_one(i);
        assert(head[i] == start[i]);
        if i < 192 {
            assert(head[i + 1] == start[i + 1]);
        } else {
            assert(i == 192);
            assert(head[200] == label[0]);
        }
    } else if i < 200 + label.len() {
        let j = i - 200;
        assert(head[i] == label[j]);
        reveal_with_fuel(lacks_from, 15);
        assert(lacks_from(label, '<', 0));
        lacks_everywhere(label, '<', 0, j);
    } else {
        let j = i - 200 - label.len();
        assert(head[i] == end[j]);
        reveal_with_fuel(opens_none, 52);
        assert(opens_none(end, 0, 49));
        assert(end[49] == '\n');
        assert(j < 49);
        opens_nowhere(end, 0, 49, j);
        assert(head[i + 1] == end[j + 1]);
    }
}

/// The argument does not stand before its place in a property list.
proof fn no_string_before(
    contents: Seq<char>,
    head: Seq<char>,
    executable: Seq<char>,
    rest: Seq<char>,
    i: int,
)
    requires
        head == service::plist_head(),
        contents == head + "    <string>"@ + executable
            + "</string>\n    <string>serve</string>\n    "@ + rest,
        forall|k: int| 0 <= k < executable.len() ==> executable[k] != '<',
        executable != "--bind"@,
        0 <= i < head.len() + 12 + executable.len() + 41,
    ensures
        !text::occurs_at(contents, "<string>--bind</string>"@, i),
{
    let marker = "<string>--bind</string>"@;
    let open = "    <string>"@;
    let middle = "</string>\n    <string>serve</string>\n    "@;
    reveal_strlit("<string>--bind</string>");
    reveal_strlit("    <string>");
    reveal_strlit("</string>\n    <string>serve</string>\n    ");
    reveal_strlit("--bind");
    let h = head.len() as int;
    let n = executable.len() as int;
    if text::occurs_at(contents, marker, i) {
        assert forall|k: int| 0 <= k < 23 implies contents[i + k] == marker[k] by {
            assert(contents.subrange(i, i + 23)[k] == contents[i + k]);
        }
        assert(contents[i + 0] == marker[0]);
        assert(contents[i + 1] == marker[1]);
        assert(contents[i + 8] == marker[8]);
        if i < h {
            assert(contents[i] == head[i]);
            plist_head_opens_one(i);
            assert(contents[i + 1] == head[i + 1]);
            assert(contents[200] == head[200]);
        } else if i < h + 12 {
            let j = i - h;
            assert(contents[i] == open[j]);
            reveal_with_fuel(lacks_from, 8);
            assert(j == 4) by {
                if j < 4 {
                    assert(open[j] == ' ');
                } else if j > 4 {
                    assert(lacks_from(open, '<', 5));
                    lacks_everywhere(open, '<', 5, j);
                }
            }
            if n < 6 {
                assert(contents[i + (8 + n)] == middle[0]);
                assert(contents[i + (8 + n)] == marker[8 + n]);
            } else if n > 6 {
                assert(contents[i + 14] == executable[6]);
                assert(contents[i + 14] == marker[14]);
            } else {
                assert(executable =~= "--bind"@) by {
                    assert forall|k: int| 0 <= k < 6 implies executable[k] == "--bind"@[k] by {
                        assert(contents[i + (8 + k)] == executable[k]);
                        assert(contents[i + (8 + k)] == marker[8 + k]);
                    }
                }
            }
        } else if i < h + 12 + n {
            assert(contents[i] == executable[i - h - 12]);
        } else {
            let j = i - h - 12 - n;
            assert(contents[i] == middle[j]);
            reveal_with_fuel(opens_none, 28);
            if j < 40 {
                assert(contents[i + 1] == middle[j + 1]);
            }
            if j < 14 {
                assert(opens_none(middle, 0, 14));
                opens_nowhere(middle, 0, 14, j);
            } else if j == 14 {
                assert(contents[i + 8] == middle[22]);
            } else if j < 40 {
                assert(opens_none(middle, 15, 40));
                opens_nowhere(middle, 15, 40, j);
            }
        }
    }
}

/// What stands in the next string is read.
proof fn enclosed_in_string(contents: Seq<char>, front: Seq<char>, value: Seq<char>, rest: Seq<char>)
    requires
        contents == front + "\n    <string>"@ + value + "</string>"@ + rest,
        forall|k: int| 0 <= k < value.len() ==> value[k] != '<',
    ensures
        service::enclosed(contents, front.len() as int, "<string>"@, "</string>"@) == Some(value),
{
    let open = "<string>"@;
    let close = "</string>"@;
    let before = "\n    <string>"@;
    reveal_strlit("<string>");
    reveal_strlit("</string>");
    reveal_strlit("\n    <string>");
    let at = front.len() as int;
    assert(text::occurs_at(contents, open, at + 5)) by {
        assert(contents.subrange(at + 5, at + 13) =~= open);
    }
    assert forall|i: int| at <= i < at + 5 implies !text::occurs_at(contents, open, i) by {
        if text::occurs_at(contents, open, i) {
            assert(contents[i] == before[i - at]);
            assert(contents.subrange(i, i + 8)[0] == contents[i]);
        }
    }
    found_first(contents, open, at, at + 5);
    let inside = at + 13;
    let end = inside + value.len() as int;
    assert(text::occurs_at(contents, close, end)) by {
        assert(contents.subrange(end, end + 9) =~= close);
    }
    assert forall|i: int| inside <= i < end implies !text::occurs_at(contents, close, i) by {
        if text::occurs_at(contents, close, i) {
            assert(contents[i] == value[i - inside]);
            assert(contents.subrange(i, i + 9)[0] == contents[i]);
        }
    }
    found_first(contents, close, inside, end);
    assert(contents.subrange(inside, end) =~= value);
}

/// The strings of a property list that binds an address.
proof fn strings_with_bind(executable: Seq<char>, bind: Seq<char>)
    ensures
        service::plist_strings(seq![executable] + service::arguments(Some(bind), false))
            == "    <string>"@ + service::xml_escaped(executable)
            + "</string>\n    <string>serve</string>\n    "@ + ("<string>--bind</string>"@ + (
        "\n    <string>"@ + service::xml_escaped(bind) + "</string>"@ + "\n"@)),
{
    let four = seq![executable, "serve"@, "--bind"@, bind];
    let three = seq![executable, "serve"@, "--bind"@];
    let two = seq![executable, "serve"@];
    let one = seq![executable];
    let none = Seq::<Seq<char>>::empty();
    assert(seq![executable] + service::arguments(Some(bind), false) =~= four);
    assert(four.drop_last() =~= three);
    assert(three.drop_last() =~= two);
    assert(two.drop_last() =~= one);
    assert(one.drop_last() =~= none);
    reveal_strlit("serve");
    reveal_strlit("--bind");
    xml_plain_is_kept("serve"@);
    xml_plain_is_kept("--bind"@);
    let open = "    <string>"@;
    let close = "</string>\n"@;
    let e = service::xml_escaped(executable);
    let b = service::xml_escaped(bind);
    assert(service::plist_strings(none) =~= Seq::<char>::empty());
    assert(service::plist_strings(one) == Seq::<char>::empty() + open + e + close);
    assert(service::plist_strings(two) == service::plist_strings(one) + open + "serve"@ + close);
    assert(service::plist_strings(three) == service::plist_strings(two) + open + "--bind"@
        + close);
    assert(service::plist_strings(four) == service::plist_strings(three) + open + b + close);
    literal_pieces();
    strings_layout(open, close, e, b);
}

proof fn literal_pieces()
    ensures
        "</string>\n"@ + "    <string>"@ + "serve"@ + "</string>\n"@ + "    "@
            == "</string>\n    <string>serve</string>\n    "@,
        "    <string>"@ == "    "@ + "<string>"@,
        "<string>"@ + "--bind"@ + "</string>"@ == "<string>--bind</string>"@,
        "\n"@ + "    <string>"@ == "\n    <string>"@,
        "</string>\n"@ == "</string>"@ + "\n"@,
{
    reveal_strlit("</string>\n");
    reveal_strlit("    <string>");
    reveal_strlit("serve");
    reveal_strlit("    ");
    reveal_strlit("</string>\n    <string>serve</string>\n    ");
    reveal_strlit("<string>");
    reveal_strlit("--bind");
    reveal_strlit("</string>");
    reveal_strlit("<string>--bind</string>");
    reveal_strlit("\n");
    reveal_strlit("\n    <string>");
    assert("</string>\n"@ + "    <string>"@ + "serve"@ + "</string>\n"@ + "    "@
        =~= "</string>\n    <string>serve</string>\n    "@);
    assert("    <string>"@ =~= "    "@ + "<string>"@);
    assert("<string>"@ + "--bind"@ + "</string>"@ =~= "<string>--bind</string>"@);
    assert("\n"@ + "    <string>"@ =~= "\n    <string>"@);
    assert("</string>\n"@ =~= "</string>"@ + "\n"@);
}

proof fn strings_layout(open: Seq<char>, close: Seq<char>, e: Seq<char>, b: Seq<char>)
    requires
        open == "    "@ + "<string>"@,
        close == "</string>"@ + "\n"@,
    ensures
        Seq::<char>::empty() + open + e + close + open + "serve"@ + close + open + "--bind"@ + close
            + open + b + close == open + e + (close + open + "serve"@ + close + "    "@) + (("<string>"@
            + "--bind"@ + "</string>"@) + (("\n"@ + open) + b + "</string>"@ + "\n"@)),
{
    assert(Seq::<char>::empty() + open + e + close + open + "serve"@ + close + open + "--bind"@
        + close + open + b + close =~= open + e + (close + open + "serve"@ + close + "    "@) + ((
    "<string>"@ + "--bind"@ + "</string>"@) + (("\n"@ + open) + b + "</string>"@ + "\n"@)));
}

/// The address that a property list was written with is the value of its argument.
pub proof fn plist_argument_is_read_back(
    executable: Seq<char>,
    bind: Seq<char>,
    environment: Seq<(Seq<char>, Seq<char>)>,
)
    requires
        forall|i: int| 0 <= i < bind.len() ==> is_xml_plain(#[trigger] bind[i]),
        service::xml_escaped(executable) != "--bind"@,
    ensures
        service::value_after(
            service::plist(executable, service::arguments(Some(bind), false), environment),
            "--bind"@,
        ) == Some(bind),
{
    let contents = service::plist(
        executable,
        service::arguments(Some(bind), false),
        environment,
    );
    let head = service::plist_head();
    let open = "    <string>"@;
    let e = service::xml_escaped(executable);
    let middle = "</string>\n    <string>serve</string>\n    "@;
    let marker = "<string>--bind</string>"@;
    let tail = service::plist_tail(environment);
    let value = "\n    <string>"@ + bind + "</string>"@ + "\n"@;
    let rest = marker + (value + tail);
    strings_with_bind(executable, bind);
    xml_plain_is_kept(bind);
    plist_regroup(head, open, e, middle, marker, value, tail);
    assert(contents == head + open + e + middle + rest);
    let front = head + open + e + middle;
    let at = front.len() as int;
    assert(open.len() == 12) by {
        reveal_strlit("    <string>");
    }
    assert(middle.len() == 41) by {
        reveal_strlit("</string>\n    <string>serve</string>\n    ");
    }
    assert forall|k: int| 0 <= k < e.len() implies e[k] != '<' by {
        xml_opens_no_tag(executable, k);
    }
    assert forall|i: int| 0 <= i < at implies !text::occurs_at(contents, marker, i) by {
        no_string_before(contents, head, e, rest, i);
    }
    assert(text::occurs_at(contents, marker, at)) by {
        assert(contents.subrange(at, at + marker.len()) =~= marker);
    }
    found_first(contents, marker, 0, at);
    assert(service::xml_marker("--bind"@) == marker) by {
        literal_pieces();
    }
    value_regroup(front, marker, "\n    <string>"@, bind, "</string>"@, "\n"@, tail);
    assert forall|k: int| 0 <= k < bind.len() implies bind[k] != '<' by {
        assert(is_xml_plain(bind[k]));
    }
    enclosed_in_string(contents, front + marker, bind, "\n"@ + tail);
}

/// An address that a property list was written with is read back from it. The
/// other parts of the list must not look like the arguments that are sought.
pub proof fn plist_bind_is_read_back(
    executable: Seq<char>,
    bind: Seq<char>,
    environment: Seq<(Seq<char>, Seq<char>)>,
)
    requires
        forall|i: int| 0 <= i < bind.len() ==> is_xml_plain(#[trigger] bind[i]),
        service::xml_escaped(executable) != "--bind"@,
        !service::holds_argument(
            service::plist(executable, service::arguments(Some(bind), false), environment),
            "--tailscale"@,
        ),
    ensures
        service::configured(
            service::plist(executable, service::arguments(Some(bind), false), environment),
            true,
        ) == Ok::<Target, Failure>(Target::Address(bind)),
{
    plist_argument_is_read_back(executable, bind, environment);
}

proof fn plist_regroup(
    head: Seq<char>,
    open: Seq<char>,
    e: Seq<char>,
    middle: Seq<char>,
    marker: Seq<char>,
    value: Seq<char>,
    tail: Seq<char>,
)
    ensures
        head + (open + e + middle + (marker + value)) + tail == head + open + e + middle + (marker
            + (value + tail)),
{
    assert(head + (open + e + middle + (marker + value)) + tail =~= head + open + e + middle + (
    marker + (value + tail)));
}

proof fn value_regroup(
    front: Seq<char>,
    marker: Seq<char>,
    open: Seq<char>,
    value: Seq<char>,
    close: Seq<char>,
    line: Seq<char>,
    tail: Seq<char>,
)
    ensures
        front + (marker + ((open + value + close + line) + tail)) == (front + marker) + open + value
            + close + (line + tail),
{
    assert(front + (marker + ((open + value + close + line) + tail)) =~= (front + marker) + open
        + value + close + (line + tail));
}

/// A property list that was written for Tailscale is read as one.
pub proof fn plist_tailscale_is_read_back(
    executable: Seq<char>,
    environment: Seq<(Seq<char>, Seq<char>)>,
)
    ensures
        forall|valid: bool| #[trigger]
            service::configured(
                service::plist(executable, service::arguments(None, true), environment),
                valid,
            ) == Ok::<Target, Failure>(Target::Tailscale),
{
    let values = seq![executable] + service::arguments(None, true);
    let contents = service::plist(executable, service::arguments(None, true), environment);
    let marker = service::xml_marker("--tailscale"@);
    let two = seq![executable, "serve"@];
    assert(values.drop_last() =~= two);
    assert(values.last() == "--tailscale"@);
    reveal_strlit("--tailscale");
    xml_plain_is_kept("--tailscale"@);
    literal_pieces();
    let front = service::plist_head() + (service::plist_strings(two) + "    "@);
    let tail = "\n"@ + service::plist_tail(environment);
    tailscale_layout(
        service::plist_head(),
        service::plist_strings(two),
        "--tailscale"@,
        service::plist_tail(environment),
    );
    assert(contents == front + marker + tail);
    let at = front.len() as int;
    assert(contents.subrange(at, at + marker.len()) =~= marker);
    assert(text::occurs_at(contents, marker, at));
    text::find_is_first(contents, marker, 0);
}

proof fn tailscale_layout(head: Seq<char>, strings: Seq<char>, value: Seq<char>, tail: Seq<char>)
    ensures
        head + (strings + ("    "@ + "<string>"@) + value + ("</string>"@ + "\n"@)) + tail == head + (
        strings + "    "@) + ("<string>"@ + value + "</string>"@) + ("\n"@ + tail),
{
    assert(head + (strings + ("    "@ + "<string>"@) + value + ("</string>"@ + "\n"@)) + tail
        =~= head + (strings + "    "@) + ("<string>"@ + value + "</string>"@) + ("\n"@ + tail));
}

// ---------------------------------------------------------------- what quoting hides

/// A text ends with another.
pub open spec fn ends_with(value: Seq<char>, end: Seq<char>) -> bool {
    value.len() >= end.len() && value.skip(value.len() - end.len()) == end
}

/// A lower-case hexadecimal digit.
spec fn is_low_hex(c: char) -> bool {
    '0' <= c <= '9' || 'a' <= c <= 'f'
}

/// No escape ends with the two characters, and the second stands as itself.
spec fn ends_no_escape(b: char, c: char) -> bool {
    &&& is_plain(c)
    &&& c == 'n' || c == 'r' || c == 't' ==> b != '\\'
    &&& is_low_hex(c) ==> !is_low_hex(b)
}

/// What one character is written as: itself, or at least two characters that end
/// like an escape.
proof fn char_forms(c: char)
    ensures
        service::systemd_char(c).len() > 0,
        is_plain(c) ==> service::systemd_char(c) == seq![c],
        !is_plain(c) ==> {
            let written = service::systemd_char(c);
            &&& written.len() >= 2
            &&& forall|b: char, d: char|
                written[written.len() - 2] == b && written.last() == d ==> !#[trigger]
                    ends_no_escape(b, d)
            &&& forall|k: int| 0 <= k < written.len() ==> #[trigger] written[k] != '>'
            &&& written.last() == '"' ==> c == '"'
            &&& forall|k: int|
                0 <= k < written.len() && #[trigger] written[k] == '"' ==> k > 0 && written[k - 1]
                    == '\\'
        },
{
    reveal_strlit("\\\\");
    reveal_strlit("\\\"");
    reveal_strlit("\\n");
    reveal_strlit("\\r");
    reveal_strlit("\\t");
    reveal_strlit("$$");
    reveal_strlit("%%");
    reveal_strlit("\\x");
    if !is_plain(c) && text::is_control(c) {
        let byte = c as u8;
        hex_forms((byte / 16) as nat);
        hex_forms((byte % 16) as nat);
    }
}

proof fn hex_forms(value: nat)
    requires
        value < 16,
    ensures
        is_low_hex(text::hex_digit(value)),
{
}

proof fn escaped_step(value: Seq<char>)
    requires
        value.len() > 0,
    ensures
        service::systemd_escaped(value) == service::systemd_escaped(value.drop_last())
            + service::systemd_char(value.last()),
{
}

/// A quoted text that ends with a character that no escape ends with was made of a
/// text that ends with it.
proof fn last_is_kept(value: Seq<char>, b: char, c: char)
    requires
        service::systemd_escaped(value).len() > 0,
        service::systemd_escaped(value).last() == c,
        service::systemd_escaped(value).len() >= 2 ==> service::systemd_escaped(
            value,
        )[service::systemd_escaped(value).len() - 2] == b,
        ends_no_escape(b, c),
    ensures
        value.len() > 0,
        value.last() == c,
        service::systemd_escaped(value.drop_last()) == service::systemd_escaped(value).drop_last(),
{
    let whole = service::systemd_escaped(value);
    assert(value.len() > 0);
    escaped_step(value);
    let front = service::systemd_escaped(value.drop_last());
    let written = service::systemd_char(value.last());
    char_forms(value.last());
    if !is_plain(value.last()) {
        assert(whole[whole.len() - 2] == written[written.len() - 2]);
        assert(whole.last() == written.last());
        assert(!ends_no_escape(b, c));
    }
    assert(whole.drop_last() =~= front);
}

/// The characters of a text follow each other in no escape, and its first ends
/// none.
spec fn is_steady(value: Seq<char>) -> bool {
    &&& value.len() > 0 ==> forall|b: char| ends_no_escape(b, value[0])
    &&& forall|i: int|
        0 < i < value.len() ==> #[trigger] ends_no_escape(value[i - 1], value[i])
}

proof fn end_is_kept(value: Seq<char>, end: Seq<char>)
    requires
        is_steady(end),
        ends_with(service::systemd_escaped(value), end),
    ensures
        ends_with(value, end),
        service::systemd_escaped(value.take(value.len() - end.len())) + end
            == service::systemd_escaped(value),
    decreases end.len(),
{
    let whole = service::systemd_escaped(value);
    if end.len() == 0 {
        assert(value.take(value.len() as int) =~= value);
        assert(whole + end =~= whole);
        assert(value.skip(value.len() as int) =~= end);
    } else {
        let c = end.last();
        let tail = whole.skip(whole.len() - end.len());
        assert(tail == end);
        assert(whole.last() == tail.last());
        let b = if whole.len() >= 2 {
            whole[whole.len() - 2]
        } else {
            'x'
        };
        if end.len() >= 2 {
            assert(tail[end.len() - 2] == whole[whole.len() - 2]);
            let i = end.len() - 1;
            assert(ends_no_escape(end[i - 1], end[i]));
        } else {
            assert(ends_no_escape(b, end[0]));
        }
        last_is_kept(value, b, c);
        let shorter = value.drop_last();
        let less = end.drop_last();
        assert(whole.drop_last().skip(whole.len() - end.len()) =~= less);
        assert forall|i: int| 0 < i < less.len() implies #[trigger] ends_no_escape(
            less[i - 1],
            less[i],
        ) by {
            assert(ends_no_escape(end[i - 1], end[i]));
        }
        assert(less.len() > 0 ==> less[0] == end[0]);
        end_is_kept(shorter, less);
        assert(shorter.take(shorter.len() - less.len()) =~= value.take(value.len() - end.len()));
        assert(value.skip(value.len() - end.len()) =~= end) by {
            assert(value =~= shorter.push(c));
            assert(end =~= less.push(c));
            assert(shorter.skip(shorter.len() - less.len()) == less);
            assert(value.skip(value.len() - end.len()) =~= shorter.skip(
                shorter.len() - less.len(),
            ).push(c));
        }
        assert(service::systemd_escaped(shorter.take(shorter.len() - less.len())) + end =~= (
        service::systemd_escaped(shorter.take(shorter.len() - less.len())) + less).push(c));
        assert(whole =~= whole.drop_last().push(c));
    }
}

/// A quotation mark between the quotes has a backslash before it.
proof fn quotes_are_escaped(value: Seq<char>, k: int)
    requires
        0 <= k < service::systemd_escaped(value).len(),
        service::systemd_escaped(value)[k] == '"',
    ensures
        k > 0,
        service::systemd_escaped(value)[k - 1] == '\\',
    decreases value.len(),
{
    escaped_step(value);
    char_forms(value.last());
    let front = service::systemd_escaped(value.drop_last());
    let written = service::systemd_char(value.last());
    if k < front.len() {
        quotes_are_escaped(value.drop_last(), k);
    } else {
        assert(written[k - front.len()] == '"');
    }
}

proof fn argument_is_steady()
    ensures
        is_steady("--bind"@),
        "--bind"@.len() == 6,
{
    reveal_strlit("--bind");
}

/// Where a quoted text holds the quoted argument, it ends with it.
proof fn argument_ends_quoted(value: Seq<char>, i: int)
    requires
        text::occurs_at(service::systemd_quoted(value), service::unit_marker("--bind"@), i),
    ensures
        i >= 0,
        service::systemd_escaped(value).len() == i + 6,
        service::systemd_escaped(value).skip(i) == "--bind"@,
        i > 0 ==> service::systemd_escaped(value)[i - 1] == '"',
{
    reveal_strlit("--bind");
    reveal_strlit("\"");
    let marker = service::unit_marker("--bind"@);
    let quoted = service::systemd_quoted(value);
    let inner = service::systemd_escaped(value);
    let word = "--bind"@;
    assert(marker.len() == 8);
    assert(marker[0] == '"' && marker[6] == 'd' && marker[7] == '"');
    assert(quoted.len() == inner.len() + 2);
    assert forall|k: int| 0 <= k < 8 implies quoted[i + k] == #[trigger] marker[k] by {
        assert(quoted.subrange(i, i + 8)[k] == marker[k]);
    }
    assert forall|k: int| 0 <= k < inner.len() implies quoted[k + 1] == #[trigger] inner[k] by {}
    if i + 6 < inner.len() {
        assert(quoted[i + 7] == marker[7]);
        assert(inner[i + 6] == '"');
        quotes_are_escaped(value, i + 6);
        assert(quoted[i + 6] == inner[i + 5]);
        assert(quoted[i + 6] == marker[6]);
    }
    assert(inner.skip(i) =~= word) by {
        assert forall|k: int| 0 <= k < 6 implies inner.skip(i)[k] == word[k] by {
            assert(quoted[i + k + 1] == inner[i + k]);
            assert(quoted[i + (k + 1)] == marker[k + 1]);
            assert(marker[k + 1] == word[k]);
        }
    }
    if i > 0 {
        assert(quoted[i - 1 + 1] == inner[i - 1]);
        assert(quoted[i + 0] == marker[0]);
    }
}

/// A quoted text holds the quoted argument only where the text is the argument, or
/// ends with it after a quotation mark.
proof fn quoted_holds_no_argument(value: Seq<char>)
    requires
        value != "--bind"@,
        !ends_with(value, "\"--bind"@),
    ensures
        !text::contains(service::systemd_quoted(value), service::unit_marker("--bind"@)),
{
    let marker = service::unit_marker("--bind"@);
    let quoted = service::systemd_quoted(value);
    let inner = service::systemd_escaped(value);
    let word = "--bind"@;
    text::find_is_first(quoted, marker, 0);
    if text::contains(quoted, marker) {
        let i = text::find(quoted, marker, 0)->0;
        assert(text::occurs_at(quoted, marker, i));
        argument_ends_quoted(value, i);
        argument_is_steady();
        assert(ends_with(inner, word));
        end_is_kept(value, word);
        let front = value.take(value.len() - 6);
        let before = service::systemd_escaped(front);
        assert(before.len() == i);
        if front.len() == 0 {
            assert(value =~= value.skip(0));
        } else {
            escaped_step(front);
            char_forms(front.last());
            assert(i > 0);
            assert(before[i - 1] == inner[i - 1]);
            assert(front.last() == '"');
            ends_after_quote(value);
        }
    }
}

proof fn ends_after_quote(value: Seq<char>)
    requires
        value.len() >= 7,
        value.skip(value.len() - 6) == "--bind"@,
        value[value.len() - 7] == '"',
    ensures
        ends_with(value, "\"--bind"@),
{
    reveal_strlit("--bind");
    reveal_strlit("\"--bind");
    let end = value.skip(value.len() - 7);
    assert("\"--bind"@ =~= seq!['"'] + "--bind"@);
    assert(end =~= seq!['"'] + value.skip(value.len() - 6));
}

/// The tag that opens a string of a property list does not occur.
spec fn opens_no_string(value: Seq<char>) -> bool {
    forall|i: int| !#[trigger] text::occurs_at(value, "<string>"@, i)
}

proof fn lacks_tag(value: Seq<char>)
    requires
        !text::contains(value, "<string>"@),
    ensures
        opens_no_string(value),
{
    text::find_is_first(value, "<string>"@, 0);
}

/// A character that the tag does not hold.
spec fn is_foreign(c: char) -> bool {
    c != '<' && c != 's' && c != 't' && c != 'r' && c != 'i' && c != 'n' && c != 'g' && c != '>'
}

/// Where the tag does not occur in two texts, it does not occur across a foreign
/// character between them.
proof fn no_tag_across(a: Seq<char>, b: Seq<char>)
    requires
        opens_no_string(a),
        opens_no_string(b),
        a.len() == 0 || is_foreign(a.last()) || b.len() == 0 || is_foreign(b[0]),
    ensures
        opens_no_string(a + b),
{
    reveal_strlit("<string>");
    let tag = "<string>"@;
    let whole = a + b;
    assert forall|i: int| !#[trigger] text::occurs_at(whole, tag, i) by {
        if text::occurs_at(whole, tag, i) {
            assert forall|k: int| 0 <= k < 8 implies whole[i + k] == #[trigger] tag[k] by {
                assert(whole.subrange(i, i + 8)[k] == tag[k]);
            }
            if i + 8 <= a.len() {
                assert(a.subrange(i, i + 8) =~= tag);
                assert(text::occurs_at(a, tag, i));
            } else if i >= a.len() {
                assert(b.subrange(i - a.len(), i - a.len() + 8) =~= tag);
                assert(text::occurs_at(b, tag, i - a.len()));
            } else {
                let k = a.len() - i;
                assert(0 < k < 8);
                assert(whole[i + (k - 1)] == tag[k - 1]);
                assert(whole[i + k] == tag[k]);
                assert(a.last() == tag[k - 1]);
                assert(b[0] == tag[k]);
            }
        }
    }
}

proof fn escaped_opens_no_string(value: Seq<char>)
    requires
        opens_no_string(value),
    ensures
        opens_no_string(service::systemd_escaped(value)),
    decreases value.len(),
{
    reveal_strlit("<string>");
    let tag = "<string>"@;
    let whole = service::systemd_escaped(value);
    if value.len() > 0 {
        let shorter = value.drop_last();
        assert forall|i: int| !#[trigger] text::occurs_at(shorter, tag, i) by {
            if text::occurs_at(shorter, tag, i) {
                assert(value.subrange(i, i + 8) =~= shorter.subrange(i, i + 8));
                assert(text::occurs_at(value, tag, i));
            }
        }
        escaped_opens_no_string(shorter);
        escaped_step(value);
        char_forms(value.last());
        let front = service::systemd_escaped(shorter);
        let written = service::systemd_char(value.last());
        assert forall|i: int| !#[trigger] text::occurs_at(whole, tag, i) by {
            if text::occurs_at(whole, tag, i) {
                assert forall|k: int| 0 <= k < 8 implies whole[i + k] == #[trigger] tag[k] by {
                    assert(whole.subrange(i, i + 8)[k] == tag[k]);
                }
                if i + 8 <= front.len() {
                    assert(front.subrange(i, i + 8) =~= tag);
                    assert(text::occurs_at(front, tag, i));
                } else {
                    assert(whole[i + 7] == tag[7]);
                    assert(written[i + 7 - front.len()] == '>');
                    let word = tag.take(7);
                    assert(front.len() == i + 7);
                    assert(front.skip(i) =~= word) by {
                        assert forall|k: int| 0 <= k < 7 implies front.skip(i)[k] == word[k] by {
                            assert(whole[i + k] == tag[k]);
                        }
                    }
                    assert(is_steady(word));
                    end_is_kept(shorter, word);
                    let at = shorter.len() - 7;
                    assert(value.subrange(at, at + 8) =~= tag) by {
                        assert forall|k: int| 0 <= k < 8 implies value.subrange(at, at + 8)[k]
                            == tag[k] by {
                            if k < 7 {
                                assert(shorter.skip(at)[k] == word[k]);
                            }
                        }
                    }
                    assert(text::occurs_at(value, tag, at));
                }
            }
        }
    }
}

proof fn quoted_opens_no_string(value: Seq<char>)
    requires
        opens_no_string(value),
    ensures
        opens_no_string(service::systemd_quoted(value)),
        service::systemd_quoted(value).len() >= 2,
        service::systemd_quoted(value)[0] == '"',
        service::systemd_quoted(value).last() == '"',
{
    reveal_strlit("\"");
    reveal_strlit("<string>");
    let inner = service::systemd_escaped(value);
    escaped_opens_no_string(value);
    assert(opens_no_string("\""@));
    no_tag_across("\""@, inner);
    no_tag_across("\""@ + inner, "\""@);
}

proof fn variables_open_no_string(environment: Seq<(Seq<char>, Seq<char>)>)
    requires
        forall|k: int|
            0 <= k < environment.len() ==> !text::contains(
                (#[trigger] environment[k]).0,
                "<string>"@,
            ) && !text::contains(environment[k].1, "<string>"@),
    ensures
        opens_no_string(service::systemd_variables(environment)),
        service::systemd_variables(environment).len() > 0
            ==> service::systemd_variables(environment).last() == '\n',
    decreases environment.len(),
{
    reveal_strlit("<string>");
    if environment.len() > 0 {
        let front = environment.drop_last();
        assert forall|k: int| 0 <= k < front.len() implies !text::contains(
            (#[trigger] front[k]).0,
            "<string>"@,
        ) && !text::contains(front[k].1, "<string>"@) by {
            assert(front[k] == environment[k]);
        }
        variables_open_no_string(front);
        reveal_strlit("=");
        reveal_strlit("\n");
        reveal_strlit("Environment=");
        let (name, value) = environment[environment.len() - 1];
        lacks_tag(name);
        lacks_tag(value);
        assert(opens_no_string("="@));
        assert(opens_no_string("\n"@));
        no_tag_across(name, "="@);
        no_tag_across(name + "="@, value);
        quoted_opens_no_string(name + "="@ + value);
        let quoted = service::systemd_quoted(name + "="@ + value);
        let before = service::systemd_variables(front);
        assert("Environment="@[0] == 'E');
        assert forall|i: int| !#[trigger] text::occurs_at("Environment="@, "<string>"@, i) by {
            if text::occurs_at("Environment="@, "<string>"@, i) {
                assert("Environment="@.subrange(i, i + 8)[0] == '<');
            }
        }
        no_tag_across(before, "Environment="@);
        no_tag_across(before + "Environment="@, quoted);
        no_tag_across(before + "Environment="@ + quoted, "\n"@);
    } else {
        assert(opens_no_string(service::systemd_variables(environment)));
    }
}

/// The fixed parts of a unit hold no tag.
proof fn fixed_parts_open_no_string()
    ensures
        opens_no_string(service::systemd_head()),
        service::systemd_head().last() == '=',
        opens_no_string("\nRestart=on-failure\nRestartSec=2\n"@),
        "\nRestart=on-failure\nRestartSec=2\n"@[0] == '\n',
        "\nRestart=on-failure\nRestartSec=2\n"@.last() == '\n',
        opens_no_string("\n[Install]\nWantedBy=default.target\n"@),
        "\n[Install]\nWantedBy=default.target\n"@[0] == '\n',
{
    reveal_strlit("<string>");
    reveal_strlit(
        "[Unit]\nDescription=alx web service\nAfter=default.target\n\n[Service]\nExecStart=",
    );
    reveal_strlit("\nRestart=on-failure\nRestartSec=2\n");
    reveal_strlit("\n[Install]\nWantedBy=default.target\n");
    let head = service::systemd_head();
    let middle = "\nRestart=on-failure\nRestartSec=2\n"@;
    let end = "\n[Install]\nWantedBy=default.target\n"@;
    assert forall|i: int| !#[trigger] text::occurs_at(head, "<string>"@, i) by {
        if text::occurs_at(head, "<string>"@, i) {
            assert(head.subrange(i, i + 8)[0] == '<');
            assert(head[i] == '<');
        }
    }
    assert forall|i: int| !#[trigger] text::occurs_at(middle, "<string>"@, i) by {
        if text::occurs_at(middle, "<string>"@, i) {
            assert(middle.subrange(i, i + 8)[0] == '<');
            assert(middle[i] == '<');
        }
    }
    assert forall|i: int| !#[trigger] text::occurs_at(end, "<string>"@, i) by {
        if text::occurs_at(end, "<string>"@, i) {
            assert(end.subrange(i, i + 8)[0] == '<');
            assert(end[i] == '<');
        }
    }
}

/// A character of a socket address without a scope.
pub open spec fn is_address_char(c: char) -> bool {
    '0' <= c <= '9' || 'a' <= c <= 'f' || 'A' <= c <= 'F' || c == '.' || c == ':' || c == '[' || c
        == ']'
}

proof fn unit_opens_no_string(
    executable: Seq<char>,
    bind: Seq<char>,
    environment: Seq<(Seq<char>, Seq<char>)>,
)
    requires
        forall|i: int| 0 <= i < bind.len() ==> is_address_char(#[trigger] bind[i]),
        !text::contains(executable, "<string>"@),
        forall|k: int|
            0 <= k < environment.len() ==> !text::contains(
                (#[trigger] environment[k]).0,
                "<string>"@,
            ) && !text::contains(environment[k].1, "<string>"@),
    ensures
        opens_no_string(
            service::unit(executable, service::arguments(Some(bind), false), environment),
        ),
{
    reveal_strlit("<string>");
    reveal_strlit(" ");
    reveal_strlit("serve");
    reveal_strlit("--bind");
    let space = " "@;
    let first = service::systemd_quoted(executable);
    let serve = service::systemd_quoted("serve"@);
    let option = service::systemd_quoted("--bind"@);
    let value = service::systemd_quoted(bind);
    lacks_tag(executable);
    assert forall|i: int| !#[trigger] text::occurs_at(bind, "<string>"@, i) by {
        if text::occurs_at(bind, "<string>"@, i) {
            assert(bind.subrange(i, i + 8)[0] == '<');
            assert(is_address_char(bind[i]));
        }
    }
    assert(opens_no_string("serve"@));
    assert(opens_no_string("--bind"@));
    assert(opens_no_string(space));
    quoted_opens_no_string(executable);
    quoted_opens_no_string("serve"@);
    quoted_opens_no_string("--bind"@);
    quoted_opens_no_string(bind);
    command_with_bind(executable, bind);
    no_tag_across(first, space);
    no_tag_across(first + space, serve);
    no_tag_across(first + space + serve, space);
    no_tag_across(first + space + serve + space, option);
    no_tag_across(first + space + serve + space + option, space);
    no_tag_across(first + space + serve + space + option + space, value);
    let command = first + space + serve + space + option + space + value;
    let head = service::systemd_head();
    let middle = "\nRestart=on-failure\nRestartSec=2\n"@;
    let variables = service::systemd_variables(environment);
    let end = "\n[Install]\nWantedBy=default.target\n"@;
    fixed_parts_open_no_string();
    variables_open_no_string(environment);
    no_tag_across(middle, variables);
    no_tag_across(middle + variables, end);
    no_tag_across(head, command);
    no_tag_across(head + command, middle + variables + end);
}

/// The address that a systemd unit was written with is the value of its argument,
/// where neither the executable nor a variable holds a string of a property list,
/// and the executable is not the argument and does not end with it after a quotation
/// mark.
pub proof fn unit_address_is_read_back(
    executable: Seq<char>,
    bind: Seq<char>,
    environment: Seq<(Seq<char>, Seq<char>)>,
)
    requires
        forall|i: int| 0 <= i < bind.len() ==> is_address_char(#[trigger] bind[i]),
        executable != "--bind"@,
        !ends_with(executable, "\"--bind"@),
        !text::contains(executable, "<string>"@),
        forall|k: int|
            0 <= k < environment.len() ==> !text::contains(
                (#[trigger] environment[k]).0,
                "<string>"@,
            ) && !text::contains(environment[k].1, "<string>"@),
    ensures
        service::value_after(
            service::unit(executable, service::arguments(Some(bind), false), environment),
            "--bind"@,
        ) == Some(bind),
{
    let contents = service::unit(executable, service::arguments(Some(bind), false), environment);
    let marker = service::xml_marker("--bind"@);
    unit_opens_no_string(executable, bind, environment);
    text::find_is_first(contents, marker, 0);
    if text::contains(contents, marker) {
        reveal_strlit("<string>");
        let at = text::find(contents, marker, 0)->0;
        assert(text::occurs_at(contents, marker, at));
        assert(contents.subrange(at, at + 8) =~= "<string>"@) by {
            assert forall|k: int| 0 <= k < 8 implies contents.subrange(at, at + 8)[k]
                == "<string>"@[k] by {
                assert(contents.subrange(at, at + marker.len())[k] == marker[k]);
            }
        }
        assert(text::occurs_at(contents, "<string>"@, at));
    }
    assert forall|i: int| 0 <= i < bind.len() implies is_plain(#[trigger] bind[i]) by {
        assert(is_address_char(bind[i]));
    }
    quoted_holds_no_argument(executable);
    unit_argument_is_read_back(executable, bind, environment);
}

/// The address that a property list was written with is the value of its argument,
/// where the executable is not the argument.
pub proof fn plist_address_is_read_back(
    executable: Seq<char>,
    bind: Seq<char>,
    environment: Seq<(Seq<char>, Seq<char>)>,
)
    requires
        forall|i: int| 0 <= i < bind.len() ==> is_address_char(#[trigger] bind[i]),
        executable != "--bind"@,
    ensures
        service::value_after(
            service::plist(executable, service::arguments(Some(bind), false), environment),
            "--bind"@,
        ) == Some(bind),
{
    assert forall|i: int| 0 <= i < bind.len() implies is_xml_plain(#[trigger] bind[i]) by {
        assert(is_address_char(bind[i]));
    }
    if service::xml_escaped(executable) == "--bind"@ {
        reveal_strlit("--bind");
        xml_keeps_plain(executable);
    }
    plist_argument_is_read_back(executable, bind, environment);
}

/// A text whose form in XML holds no `&` is its own form.
proof fn xml_keeps_plain(value: Seq<char>)
    requires
        forall|i: int|
            0 <= i < service::xml_escaped(value).len() ==> #[trigger] service::xml_escaped(value)[i]
                != '&',
    ensures
        service::xml_escaped(value) == value,
    decreases value.len(),
{
    let whole = service::xml_escaped(value);
    if value.len() > 0 {
        let front = service::xml_escaped(value.drop_last());
        let written = service::xml_char(value.last());
        assert(whole == front + written);
        reveal_strlit("&amp;");
        reveal_strlit("&lt;");
        reveal_strlit("&gt;");
        reveal_strlit("&quot;");
        reveal_strlit("&apos;");
        assert forall|i: int| 0 <= i < front.len() implies #[trigger] front[i] != '&' by {
            assert(whole[i] == front[i]);
        }
        xml_keeps_plain(value.drop_last());
        assert(whole[front.len() as int] == written[0]);
        assert(written == seq![value.last()]);
        assert(whole =~= value);
    } else {
        assert(whole =~= value);
    }
}

} // verus!

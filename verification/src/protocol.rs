//! The line protocol between chat clients and the server: how a client
//! addresses a line to recipients, how lines are framed on the wire, and the
//! text the server sends and shows for each message.

use vstd::prelude::*;
use vstd::string::*;
use crate::text::{
    chars_of, decimal, decimal_spec, find_char, is_first_index, is_trimmed, is_visible_ascii,
    join_spec, law_split_undoes_join, law_trim_cuts_only_white_space, lemma_trimmed_is_fixed,
    split_spec, split_trimmed, trim, trim_spec,
};

verus! {

broadcast use vstd::string::group_string_axioms;

/// A chat line as the server understands it: the recipients named before
/// the first `:` and the message after it.
#[derive(Clone, Debug, PartialEq, Eq)]
pub struct ChatLine {
    pub destinations: Vec<String>,
    pub text: String,
}

/// The content of a chat line: recipient names and message text.
pub struct ChatLineView {
    pub destinations: Seq<Seq<char>>,
    pub text: Seq<char>,
}

impl View for ChatLine {
    type V = ChatLineView;

    open spec fn view(&self) -> ChatLineView {
        ChatLineView {
            destinations: self.destinations@.map_values(|d: String| d@),
            text: self.text@,
        }
    }
}

/// What a line means: `None` when it holds no `:`; otherwise the
/// comma-separated names before the first `:`, each trimmed, and the
/// trimmed text after it.
pub open spec fn parse_chat_line_spec(line: Seq<char>) -> Option<ChatLineView> {
    if line.contains(':') {
        let i = choose|i: int| is_first_index(line, ':', i);
        Some(
            ChatLineView {
                destinations: split_spec(line.take(i), ',').map_values(|p: Seq<char>| trim_spec(p)),
                text: trim_spec(line.skip(i + 1)),
            },
        )
    } else {
        None
    }
}

/// The message read from a line is what follows its first `:`, whole,
/// with only whitespace cut from its two ends: a run of that text outside
/// of which there is no visible ASCII character.
pub proof fn law_message_is_text_after_first_colon(line: Seq<char>, i: int)
    requires
        is_first_index(line, ':', i),
    ensures
        parse_chat_line_spec(line) is Some,
        exists|a: int|
            #![trigger line.skip(i + 1).subrange(a, a + parse_chat_line_spec(line)->0.text.len())]
            0 <= a && a + parse_chat_line_spec(line)->0.text.len() <= line.skip(i + 1).len()
                && parse_chat_line_spec(line)->0.text == line.skip(i + 1).subrange(
                a,
                a + parse_chat_line_spec(line)->0.text.len(),
            ) && (forall|k: int|
                0 <= k < line.skip(i + 1).len() && !(a <= k < a + parse_chat_line_spec(
                    line,
                )->0.text.len()) ==> !is_visible_ascii(#[trigger] line.skip(i + 1)[k])),
{
    assert(line.contains(':')) by {
        assert(line[i] == ':');
    }
    let c = choose|c: int| is_first_index(line, ':', c);
    assert(c == i) by {
        if c < i {
            assert(line[c] != ':');
        } else if c > i {
            assert(line[i] != ':');
        }
    }
    let rest = line.skip(i + 1);
    let text = parse_chat_line_spec(line)->0.text;
    assert(text == trim_spec(rest));
    law_trim_cuts_only_white_space(rest);
    let a = choose|a: int|
        #![trigger rest.subrange(a, a + trim_spec(rest).len())]
        0 <= a && a + trim_spec(rest).len() <= rest.len() && trim_spec(rest) == rest.subrange(
            a,
            a + trim_spec(rest).len(),
        ) && (forall|k: int|
            0 <= k < rest.len() && !(a <= k < a + trim_spec(rest).len()) ==> !is_visible_ascii(
                #[trigger] rest[k],
            ));
    assert(0 <= a && a + text.len() <= rest.len() && text == rest.subrange(a, a + text.len()) && (
    forall|k: int|
        0 <= k < rest.len() && !(a <= k < a + text.len()) ==> !is_visible_ascii(
            #[trigger] rest[k],
        )));
}

/// What a recipient is sent carries the sender's name and the whole
/// message verbatim: `Message from "`, the name, `": `, the message and a
/// newline, character for character.
pub proof fn law_delivery_text_is_verbatim(from: Seq<char>, msg: Seq<char>)
    ensures
        delivery_text_spec(from, msg) == seq!['M', 'e', 's', 's', 'a', 'g', 'e', ' ', 'f', 'r', 'o', 'm', ' ', '"']
            + from + seq!['"', ':', ' '] + msg + seq!['\n'],
        delivery_text_spec(from, msg).len() == from.len() + msg.len() + 18,
        delivery_text_spec(from, msg).subrange(from.len() + 17int, from.len() + 17int + msg.len()) == msg,
{
    reveal_strlit("Message from \"");
    reveal_strlit("\": ");
    reveal_strlit("\n");
    let t = delivery_text_spec(from, msg);
    assert(t =~= seq!['M', 'e', 's', 's', 'a', 'g', 'e', ' ', 'f', 'r', 'o', 'm', ' ', '"'] + from
        + seq!['"', ':', ' '] + msg + seq!['\n']);
    assert(t.subrange(from.len() + 17int, from.len() + 17int + msg.len()) =~= msg);
}

/// The line a client types to send `msg` to `names`: the names joined by
/// commas, a colon and the message.
pub open spec fn compose_line_spec(names: Seq<Seq<char>>, msg: Seq<char>) -> Seq<char> {
    join_spec(names, ',').push(':') + msg
}

/// Round trip of the line format: a line composed of names that hold no
/// `,` or `:` and carry no surrounding whitespace, and of a message without
/// surrounding whitespace, is read back as those names and that message.
pub proof fn law_parse_undoes_compose(names: Seq<Seq<char>>, msg: Seq<char>)
    requires
        names.len() >= 1,
        forall|k: int|
            0 <= k < names.len() ==> !(#[trigger] names[k]).contains(',') && !names[k].contains(
                ':',
            ) && is_trimmed(names[k]),
        is_trimmed(msg),
    ensures
        parse_chat_line_spec(compose_line_spec(names, msg)) == Some(
            ChatLineView { destinations: names, text: msg },
        ),
{
    let j = join_spec(names, ',');
    let line = compose_line_spec(names, msg);
    lemma_join_avoids(names, ',', ':');
    let i = j.len() as int;
    assert(line[i] == ':');
    assert(is_first_index(line, ':', i)) by {
        assert forall|k: int| 0 <= k < i implies line[k] != ':' by {
            assert(line[k] == j[k]);
        }
    }
    assert(line.contains(':'));
    let c = choose|c: int| is_first_index(line, ':', c);
    assert(c == i) by {
        if c < i {
            assert(line[c] != ':');
        } else if c > i {
            assert(line[i] != ':');
        }
    }
    assert(line.take(i) =~= j);
    assert(line.skip(i + 1) =~= msg);
    law_split_undoes_join(names, ',');
    lemma_trimmed_is_fixed(msg);
    assert forall|k: int| 0 <= k < names.len() implies trim_spec(#[trigger] names[k]) == names[k] by {
        lemma_trimmed_is_fixed(names[k]);
    }
    assert(names.map_values(|p: Seq<char>| trim_spec(p)) =~= names);
}

/// Joining pieces that hold neither the separator `sep` nor `other` gives a
/// string without `other`.
proof fn lemma_join_avoids(parts: Seq<Seq<char>>, sep: char, other: char)
    requires
        sep != other,
        forall|k: int| 0 <= k < parts.len() ==> !(#[trigger] parts[k]).contains(other),
    ensures
        !join_spec(parts, sep).contains(other),
    decreases parts.len(),
{
    if parts.len() >= 2 {
        let front = parts.drop_last();
        assert forall|k: int| 0 <= k < front.len() implies !(#[trigger] front[k]).contains(other) by {
            assert(front[k] == parts[k]);
        }
        lemma_join_avoids(front, sep, other);
        let f = join_spec(front, sep);
        let whole = f.push(sep) + parts.last();
        assert(!parts.last().contains(other)) by {
            assert(parts[parts.len() - 1] == parts.last());
        }
        if whole.contains(other) {
            let k = choose|k: int| 0 <= k < whole.len() && whole[k] == other;
            if k < f.len() {
                assert(f[k] == other);
            } else if k > f.len() {
                assert(parts.last()[k - f.len() - 1] == other);
            }
        }
    } else if parts.len() == 1 {
        assert(parts[0] == join_spec(parts, sep));
    }
}

/// The text the server sends to a recipient for a message.
pub open spec fn delivery_text_spec(from: Seq<char>, msg: Seq<char>) -> Seq<char> {
    "Message from \""@ + from + "\": "@ + msg + "\n"@
}

/// The server's log entry for a message handed to one recipient.
pub open spec fn sent_notice_spec(from: Seq<char>, to: Seq<char>) -> Seq<char> {
    "a Message was sent by \""@ + from + "\" to \""@ + to + "\""@
}

/// Splits a line `"alice, bob: hello"` into its recipients and its message.
/// A line without `:` carries no message and is ignored by the server.
pub fn parse_chat_line(line: &str) -> (res: Option<ChatLine>)
    ensures
        match res {
            Some(parsed) => parse_chat_line_spec(line@) == Some(parsed@),
            None => parse_chat_line_spec(line@) is None,
        },
{
    let chars = chars_of(line);
    match find_char(&chars, ':') {
        None => {
            proof {
                assert(!line@.contains(':'));
            }
            None
        },
        Some(i) => {
            let n = chars.len();
            let head = line.substring_char(0, i);
            let tail = line.substring_char(i + 1, n);
            let destinations = split_trimmed(head, ',');
            let text = trim(tail);
            let parsed = ChatLine { destinations, text };
            proof {
                assert(line@.contains(':')) by {
                    assert(line@[i as int] == ':');
                }
                let j = choose|j: int| is_first_index(line@, ':', j);
                assert(j == i) by {
                    if j < i {
                        assert(line@[j] != ':');
                    } else if j > i {
                        assert(line@[i as int] != ':');
                    }
                }
                assert(head@ =~= line@.take(i as int));
                assert(tail@ =~= line@.skip(i + 1));
                assert(parsed@.destinations =~= split_spec(line@.take(i as int), ',').map_values(
                    |p: Seq<char>| trim_spec(p),
                ));
            }
            Some(parsed)
        },
    }
}

/// A line as it travels on the wire: its text followed by a newline.
pub fn frame_line(line: &str) -> (res: String)
    ensures
        res@ == line@ + "\n"@,
{
    let mut res = String::from_str(line);
    res.append("\n");
    res
}

/// The text the server sends to a recipient for a message from `from`.
pub fn delivery_text(from: &str, msg: &str) -> (res: String)
    ensures
        res@ == delivery_text_spec(from@, msg@),
{
    let mut res = String::from_str("Message from \"");
    res.append(from);
    res.append("\": ");
    res.append(msg);
    res.append("\n");
    res
}

/// The server's log entry for a message from `from` handed to `to`.
pub fn sent_notice(from: &str, to: &str) -> (res: String)
    ensures
        res@ == sent_notice_spec(from@, to@),
{
    let mut res = String::from_str("a Message was sent by \"");
    res.append(from);
    res.append("\" to \"");
    res.append(to);
    res.append("\"");
    res
}

/// The server's log entry for an incoming connection from `peer`.
pub fn accept_notice(peer: &str) -> (res: String)
    ensures
        res@ == "Accepting connection from: \""@ + peer@ + "\""@,
{
    let mut res = String::from_str("Accepting connection from: \"");
    res.append(peer);
    res.append("\"");
    res
}

/// The server's console line for a user seen for the first time.
pub fn new_user_notice(name: &str) -> (res: String)
    ensures
        res@ == "new user created: \""@ + name@ + "\""@,
{
    let mut res = String::from_str("new user created: \"");
    res.append(name);
    res.append("\"");
    res
}

/// The server's log entry for a user seen before.
pub fn returning_user_notice(name: &str) -> (res: String)
    ensures
        res@ == "An old user is back! his username is: "@ + name@,
{
    let mut res = String::from_str("An old user is back! his username is: ");
    res.append(name);
    res
}

/// The test client's report of how long an answer took: whole seconds, a
/// dot and the milliseconds past them, both in plain decimal.
pub fn latency_report(secs: u64, millis: u32) -> (res: String)
    ensures
        res@ == "Time to receive message: "@ + decimal_spec(secs as nat) + "."@ + decimal_spec(
            millis as nat,
        ) + " seconds"@,
{
    let mut res = String::from_str("Time to receive message: ");
    res.append(decimal(secs).as_str());
    res.append(".");
    res.append(decimal(millis as u64).as_str());
    res.append(" seconds");
    res
}

} // verus!

//! What is wrong with what was asked for on the command line, and what is said
//! before the screen comes up.
#[allow(unused_imports)]
use crate::app::input;
use crate::serial::at::{AtError, AtErrorView};
use crate::serial::params::FrameFormat;
#[allow(unused_imports)]
use crate::text;
use crate::text::{push_decimal, push_text};
use vstd::prelude::*;
use vstd::string::*;

verus! {

/// The first channel that cannot be used.
pub open spec fn first_unusable(dlcis: Seq<u8>) -> Option<u8>
    decreases dlcis.len(),
{
    if dlcis.len() == 0 {
        None
    } else if !(1 <= dlcis[0] <= 63) {
        Some(dlcis[0])
    } else {
        first_unusable(dlcis.drop_first())
    }
}

/// What is wrong with the channels to open at the start: there are more than two,
/// or one is not from 1 to 63.
pub open spec fn wrong_with_dlcis(dlcis: Seq<u8>) -> Option<Seq<char>> {
    if dlcis.len() > 2 {
        Some("最多同时观察 2 个子通道，收到 "@ + text::decimal(dlcis.len()) + " 个"@)
    } else {
        match first_unusable(dlcis) {
            Some(bad) => Some("DLCI 必须在 1-63 之间，收到 "@ + text::decimal(bad as nat)),
            None => None,
        }
    }
}

/// Texts with a comma and a space between two.
pub open spec fn listed(texts: Seq<Seq<char>>) -> Seq<char>
    decreases texts.len(),
{
    if texts.len() == 0 {
        Seq::empty()
    } else if texts.len() == 1 {
        texts[0]
    } else {
        listed(texts.drop_last()) + ", "@ + texts.last()
    }
}

/// What is said when no port was named.
pub open spec fn no_port(ports: Seq<Seq<char>>) -> Seq<char> {
    "请用 --port 指定串口。当前可用："@ + (if ports.len() == 0 {
        "（无）"@
    } else {
        listed(ports)
    })
}

/// The port, for the status line.
pub open spec fn port_text(port: Seq<char>, baud: u32, format: FrameFormat) -> Seq<char> {
    port + " "@ + text::decimal(baud as nat) + " "@ + format.text()
}

/// What is said when the port cannot be opened.
pub open spec fn port_failure(port: Seq<char>, why: Seq<char>) -> Seq<char> {
    "打开 "@ + port + " 失败："@ + why
}

/// What is said when the AT dialogue failed.
pub open spec fn dialogue_failure(e: AtErrorView) -> Seq<char> {
    "AT 握手失败："@ + e.text() + "（可用 --no-at 跳过）"@
}

/// Checks the channels to open at the start.
pub fn check_dlcis(dlcis: &Vec<u8>) -> (r: Result<(), String>)
    ensures
        match r {
            Ok(_) => wrong_with_dlcis(dlcis@) is None,
            Err(why) => wrong_with_dlcis(dlcis@) == Some(why@),
        },
{
    let mut why = String::new();
    if dlcis.len() > 2 {
        push_text(&mut why, "最多同时观察 2 个子通道，收到 ");
        push_decimal(&mut why, dlcis.len() as u64);
        push_text(&mut why, " 个");
        assert(why@ =~= "最多同时观察 2 个子通道，收到 "@ + text::decimal(dlcis@.len()) + " 个"@);
        return Err(why);
    }
    assert(dlcis@.skip(0) =~= dlcis@);
    for i in 0..dlcis.len()
        invariant
            dlcis@.len() <= 2,
            why@ == Seq::<char>::empty(),
            first_unusable(dlcis@) == first_unusable(dlcis@.skip(i as int)),
    {
        let dlci: u8 = dlcis[i];
        assert(dlcis@.skip(i as int).drop_first() =~= dlcis@.skip(i + 1));
        if dlci < 1 || dlci > 63 {
            push_text(&mut why, "DLCI 必须在 1-63 之间，收到 ");
            push_decimal(&mut why, dlci as u64);
            assert(why@ =~= "DLCI 必须在 1-63 之间，收到 "@ + text::decimal(dlci as nat));
            return Err(why);
        }
    }
    Ok(())
}

/// What to say when no port was named.
pub fn missing_port(ports: &Vec<String>) -> (s: String)
    ensures
        s@ == no_port(input::text_views(ports@)),
{
    let mut s = String::new();
    push_text(&mut s, "请用 --port 指定串口。当前可用：");
    let ghost head = s@;
    let ghost views = input::text_views(ports@);
    if ports.len() == 0 {
        push_text(&mut s, "（无）");
    } else {
        for i in 0..ports.len()
            invariant
                views == input::text_views(ports@),
                s@ == head + listed(views.take(i as int)),
        {
            if i > 0 {
                push_text(&mut s, ", ");
            }
            push_text(&mut s, ports[i].as_str());
            assert(views.take(i + 1).drop_last() =~= views.take(i as int));
            assert(views.take(i + 1).last() == ports@[i as int]@);
            assert(s@ =~= head + listed(views.take(i + 1)));
        }
        assert(views.take(views.len() as int) =~= views);
    }
    assert(s@ =~= no_port(views));
    s
}

/// The port, for the status line.
pub fn port_description(port: &str, baud: u32, format: FrameFormat) -> (s: String)
    ensures
        s@ == port_text(port@, baud, format),
{
    let mut s = String::new();
    push_text(&mut s, port);
    push_text(&mut s, " ");
    push_decimal(&mut s, baud as u64);
    push_text(&mut s, " ");
    push_text(&mut s, format.to_string().as_str());
    assert(s@ =~= port_text(port@, baud, format));
    s
}

/// What to say when the port cannot be opened.
pub fn cannot_open(port: &str, why: &str) -> (s: String)
    ensures
        s@ == port_failure(port@, why@),
{
    let mut s = String::new();
    push_text(&mut s, "打开 ");
    push_text(&mut s, port);
    push_text(&mut s, " 失败：");
    push_text(&mut s, why);
    assert(s@ =~= port_failure(port@, why@));
    s
}

/// What to say when the AT dialogue failed.
pub fn handshake_note(e: &AtError) -> (s: String)
    ensures
        s@ == dialogue_failure(e@),
{
    let mut s = String::new();
    push_text(&mut s, "AT 握手失败：");
    push_text(&mut s, e.to_string().as_str());
    push_text(&mut s, "（可用 --no-at 跳过）");
    assert(s@ =~= dialogue_failure(e@));
    s
}

/// Which channels can be asked for at the start: none, one or two, each from 1 to 63. More
/// are refused with their number, and else the first that is out of range with its own.
pub proof fn law_channels_that_can_be_asked_for(dlcis: Seq<u8>, i: int)
    ensures
        wrong_with_dlcis(dlcis) is None <==> dlcis.len() <= 2 && forall|k: int|
            0 <= k < dlcis.len() ==> 1 <= #[trigger] dlcis[k] <= 63,
        dlcis.len() > 2 ==> wrong_with_dlcis(dlcis) == Some(
            "最多同时观察 2 个子通道，收到 "@ + text::decimal(dlcis.len()) + " 个"@,
        ),
        dlcis.len() <= 2 && 0 <= i < dlcis.len() && !(1 <= dlcis[i] <= 63) && (forall|k: int|
            0 <= k < i ==> 1 <= #[trigger] dlcis[k] <= 63) ==> wrong_with_dlcis(dlcis) == Some(
            "DLCI 必须在 1-63 之间，收到 "@ + text::decimal(dlcis[i] as nat),
        ),
{
    reveal_with_fuel(first_unusable, 4);
    if dlcis.len() > 0 {
        assert(dlcis.drop_first().len() == dlcis.len() - 1);
        if dlcis.len() > 1 {
            assert(dlcis.drop_first()[0] == dlcis[1]);
        }
    }
}

/// Names in a list stand in their order, with a comma and a blank between two and nothing
/// before or behind.
pub proof fn law_names_are_listed_in_order(a: Seq<Seq<char>>, b: Seq<Seq<char>>)
    ensures
        a.len() == 1 ==> listed(a) == a[0],
        a.len() > 0 && b.len() > 0 ==> listed(a + b) == listed(a) + seq![',', ' '] + listed(b),
    decreases b.len(),
{
    reveal_strlit(", ");
    assert(", "@ =~= seq![',', ' ']);
    if a.len() > 0 && b.len() > 0 {
        let front = b.drop_last();
        assert((a + b).drop_last() =~= a + front);
        assert((a + b).last() == b.last());
        if b.len() == 1 {
            assert(a + front =~= a);
        } else {
            law_names_are_listed_in_order(a, front);
            assert(listed(a + b) =~= listed(a) + seq![',', ' '] + listed(b));
        }
    }
}

/// What is said before the screen comes up names what it is about: the ports that there
/// are, the port with its speed and format, the port that cannot be opened and why, and
/// what went wrong in the dialogue.
pub proof fn law_what_is_said_before(
    ports: Seq<Seq<char>>,
    port: Seq<char>,
    baud: u32,
    format: FrameFormat,
    why: Seq<char>,
    e: AtErrorView,
)
    ensures
        ports.len() == 0 ==> no_port(ports) == "请用 --port 指定串口。当前可用："@ + "（无）"@,
        ports.len() > 0 ==> no_port(ports) == "请用 --port 指定串口。当前可用："@ + listed(ports),
        port_text(port, baud, format) == port.push(' ') + text::decimal(baud as nat).push(' ')
            + format.text(),
        port_failure(port, why) == "打开 "@ + (port + "失败："@.insert(0, ' ') + why),
        dialogue_failure(e) == "AT 握手失败："@ + (match e {
            AtErrorView::NoResponse => "模块无响应"@,
            AtErrorView::Rejected(words) => "模块拒绝: "@ + words,
            AtErrorView::Io(words) => "串口错误: "@ + words,
        }) + "（可用 --no-at 跳过）"@,
{
    reveal_strlit(" ");
    reveal_strlit(" 失败：");
    reveal_strlit("失败：");
    assert(" 失败："@ =~= "失败："@.insert(0, ' '));
    assert(port_text(port, baud, format) =~= port.push(' ') + text::decimal(baud as nat).push(' ')
        + format.text());
    assert(port_failure(port, why) =~= "打开 "@ + (port + "失败："@.insert(0, ' ') + why));
}

} // verus!

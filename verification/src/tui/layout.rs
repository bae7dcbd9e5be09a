//! The chat area: which rows the messages take, and which of them are shown.

use vstd::prelude::*;
use crate::app::{chat_height, message_views, Message, MessageView, Role};
use crate::text::{lines, lines_of, views};

verus! {

/// One row of the chat.
pub enum ChatLine {
    /// The label row that starts a message.
    Label(Role),
    /// One line of a message's text.
    Body(String),
    /// The blank row that ends a message.
    Blank,
}

/// A chat row as a value.
pub enum ChatLineView {
    Label(Role),
    Body(Seq<char>),
    Blank,
}

impl View for ChatLine {
    type V = ChatLineView;

    open spec fn view(&self) -> ChatLineView {
        match self {
            ChatLine::Label(r) => ChatLineView::Label(*r),
            ChatLine::Body(s) => ChatLineView::Body(s@),
            ChatLine::Blank => ChatLineView::Blank,
        }
    }
}

/// The view of each chat line.
pub open spec fn chat_line_views(v: Seq<ChatLine>) -> Seq<ChatLineView> {
    v.map_values(|l: ChatLine| l@)
}

/// The rows of one message: its label, its lines, a blank row.
pub open spec fn message_rows(m: MessageView) -> Seq<ChatLineView> {
    seq![ChatLineView::Label(m.role)] + lines_of(m.content).map_values(
        |l: Seq<char>| ChatLineView::Body(l),
    ) + seq![ChatLineView::Blank]
}

/// The rows of all messages, in order.
pub open spec fn chat_rows(messages: Seq<MessageView>) -> Seq<ChatLineView>
    decreases messages.len(),
{
    if messages.len() == 0 {
        Seq::empty()
    } else {
        message_rows(messages[0]) + chat_rows(messages.drop_first())
    }
}

/// One more message adds its rows to the chat's rows.
pub proof fn lemma_chat_rows_push(messages: Seq<MessageView>, m: MessageView)
    ensures
        chat_rows(messages.push(m)) == chat_rows(messages) + message_rows(m),
    decreases messages.len(),
{
    if messages.len() == 0 {
        assert(messages.push(m).drop_first() =~= Seq::<MessageView>::empty());
        assert(chat_rows(Seq::<MessageView>::empty()) =~= Seq::<ChatLineView>::empty());
        assert(messages.push(m)[0] == m);
        assert(chat_rows(messages.push(m)) =~= message_rows(m) + Seq::<ChatLineView>::empty());
        assert(chat_rows(messages) + message_rows(m) =~= message_rows(m));
        assert(message_rows(m) + Seq::<ChatLineView>::empty() =~= message_rows(m));
    } else {
        assert(messages.push(m)[0] == messages[0]);
        assert(messages.push(m).drop_first() =~= messages.drop_first().push(m));
        lemma_chat_rows_push(messages.drop_first(), m);
        assert(chat_rows(messages.push(m)) =~= message_rows(messages[0]) + (chat_rows(
            messages.drop_first(),
        ) + message_rows(m)));
    }
}

/// The label of a message row: "You" for the user, "stow" for the assistant.
pub fn role_label(role: Role) -> (label: &'static str)
    ensures
        role == Role::User ==> label@ == "You"@,
        role == Role::Assistant ==> label@ == "stow"@,
{
    match role {
        Role::User => "You",
        Role::Assistant => "stow",
    }
}

/// A copy of a chat line.
fn clone_line(l: &ChatLine) -> (r: ChatLine)
    ensures
        r@ == l@,
{
    match l {
        ChatLine::Label(role) => ChatLine::Label(*role),
        ChatLine::Body(s) => ChatLine::Body(s.clone()),
        ChatLine::Blank => ChatLine::Blank,
    }
}

/// The rows of the chat: for each message its label, its lines (as
/// `str::lines` splits them) and a blank row.
pub fn build_chat_lines(messages: &[Message]) -> (rows: Vec<ChatLine>)
    ensures
        chat_line_views(rows@) == chat_rows(message_views(messages@)),
{
    let ghost ms = message_views(messages@);
    let mut rows: Vec<ChatLine> = Vec::new();
    let mut i: usize = 0;
    assert(ms.take(0) =~= Seq::<MessageView>::empty());
    while i < messages.len()
        invariant
            ms == message_views(messages@),
            i <= messages.len(),
            chat_line_views(rows@) == chat_rows(ms.take(i as int)),
        decreases messages.len() - i,
    {
        let msg = &messages[i];
        let ghost before = chat_line_views(rows@);
        rows.push(ChatLine::Label(msg.role));
        let content_lines = lines(msg.content.as_str());
        let mut j: usize = 0;
        let ghost body = lines_of(msg.content@).map_values(|l: Seq<char>| ChatLineView::Body(l));
        assert(chat_line_views(rows@) =~= before + seq![ChatLineView::Label(msg.role)]);
        while j < content_lines.len()
            invariant
                j <= content_lines.len(),
                views(content_lines@) == lines_of(msg.content@),
                body == lines_of(msg.content@).map_values(|l: Seq<char>| ChatLineView::Body(l)),
                chat_line_views(rows@) == before + seq![ChatLineView::Label(msg.role)]
                    + body.take(j as int),
            decreases content_lines.len() - j,
        {
            let ghost prev = chat_line_views(rows@);
            rows.push(ChatLine::Body(content_lines[j].clone()));
            assert(body[j as int] == ChatLineView::Body(content_lines@[j as int]@));
            assert(body.take(j + 1) =~= body.take(j as int).push(body[j as int]));
            assert(chat_line_views(rows@) =~= prev.push(body[j as int]));
            j += 1;
        }
        let ghost prev = chat_line_views(rows@);
        rows.push(ChatLine::Blank);
        assert(chat_line_views(rows@) =~= prev.push(ChatLineView::Blank));
        assert(body.take(j as int) =~= body);
        assert(ms[i as int] == msg@);
        assert(chat_line_views(rows@) =~= before + message_rows(ms[i as int]));
        assert(ms.take(i + 1) =~= ms.take(i as int).push(ms[i as int]));
        proof {
            lemma_chat_rows_push(ms.take(i as int), ms[i as int]);
        }
        i += 1;
    }
    assert(ms.take(i as int) =~= ms);
    rows
}

/// The rows the messages take are as many as the chat's content height, the
/// height by which the chat is scrolled and clamped.
pub proof fn law_chat_rows_match_content_height(messages: Seq<MessageView>)
    ensures
        chat_rows(messages).len() == chat_height(messages),
    decreases messages.len(),
{
    if messages.len() > 0 {
        law_chat_rows_match_content_height(messages.drop_first());
    }
}

/// What the chat area shows.
pub struct ChatViewport {
    /// The rows shown, top to bottom.
    pub lines: Vec<ChatLine>,
    /// The number of rows of the chat, as a `u16`.
    pub content_height: u16,
    /// The scroll used: the one asked for, no further than the content allows.
    pub scroll: i32,
    /// Whether the rows do not all fit, so that a scrollbar is shown.
    pub show_scrollbar: bool,
}

/// The smaller of two integers.
pub open spec fn min_int(a: int, b: int) -> int {
    if a <= b {
        a
    } else {
        b
    }
}

/// The scroll used for a chat of `content_height` rows in a view
/// `view_height` rows high: the one asked for, no further than the rows that
/// do not fit.
pub open spec fn viewport_scroll(scroll: i32, content_height: u16, view_height: u16) -> i32 {
    let max_scroll = if content_height > view_height {
        (content_height - view_height) as i32
    } else {
        0i32
    };
    if scroll <= max_scroll {
        scroll
    } else {
        max_scroll
    }
}

/// The rows shown: from the scroll on, as many as the view holds; none for a
/// negative scroll.
pub open spec fn viewport_rows(rows: Seq<ChatLineView>, scroll: i32, view_height: u16) -> Seq<
    ChatLineView,
> {
    if scroll < 0 {
        Seq::empty()
    } else {
        rows.subrange(
            min_int(scroll as int, rows.len() as int),
            min_int(scroll + view_height, rows.len() as int),
        )
    }
}

/// What the chat area shows of the messages, in a view `view_height` rows
/// high, scrolled by `scroll` rows.
pub fn chat_viewport(messages: &[Message], view_height: u16, scroll: i32) -> (vp: ChatViewport)
    ensures
        vp.content_height == (chat_rows(message_views(messages@)).len() as u16),
        vp.scroll == viewport_scroll(scroll, vp.content_height, view_height),
        chat_line_views(vp.lines@) == viewport_rows(
            chat_rows(message_views(messages@)),
            vp.scroll,
            view_height,
        ),
        vp.show_scrollbar == (vp.content_height > view_height),
{
    let rows = build_chat_lines(messages);
    let ghost all = chat_line_views(rows@);
    let content_height = rows.len() as u16;
    let max_scroll: i32 = if content_height > view_height {
        (content_height - view_height) as i32
    } else {
        0
    };
    let scroll = if scroll <= max_scroll {
        scroll
    } else {
        max_scroll
    };
    let mut shown: Vec<ChatLine> = Vec::new();
    if scroll >= 0 {
        let start: usize = if (scroll as usize) < rows.len() {
            scroll as usize
        } else {
            rows.len()
        };
        let end: usize = if (scroll as usize) + (view_height as usize) < rows.len() {
            (scroll as usize) + (view_height as usize)
        } else {
            rows.len()
        };
        let mut k = start;
        while k < end
            invariant
                start <= k <= end <= rows.len(),
                all == chat_line_views(rows@),
                chat_line_views(shown@) == all.subrange(start as int, k as int),
            decreases end - k,
        {
            let ghost prev = chat_line_views(shown@);
            shown.push(clone_line(&rows[k]));
            assert(chat_line_views(shown@) =~= prev.push(all[k as int]));
            assert(all.subrange(start as int, k + 1) =~= all.subrange(start as int, k as int).push(
                all[k as int],
            ));
            k += 1;
        }
    } else {
        assert(chat_line_views(shown@) =~= Seq::<ChatLineView>::empty());
    }
    ChatViewport {
        lines: shown,
        content_height,
        scroll,
        show_scrollbar: content_height > view_height,
    }
}

/// A message takes a label row with its author, a row for each of its lines,
/// in order, and a blank row.
pub proof fn law_message_rows(m: MessageView)
    ensures
        ({
            let rows = message_rows(m);
            let ls = lines_of(m.content);
            &&& rows.len() == ls.len() + 2
            &&& rows[0] == ChatLineView::Label(m.role)
            &&& forall|i: int| 0 <= i < ls.len() ==> #[trigger] rows[i + 1] == ChatLineView::Body(ls[i])
            &&& rows[rows.len() - 1] == ChatLineView::Blank
        }),
{
}

/// The chat area shows a window of the rows: from the scroll on, as many as
/// the view holds or as are left, in order; nothing for a negative scroll.
/// The scroll used is the one asked for, lowered to the rows that do not fit
/// (0 if all fit).
pub proof fn law_viewport_window(rows: Seq<ChatLineView>, scroll: i32, content_height: u16, view_height: u16)
    ensures
        ({
            let shown = viewport_rows(rows, scroll, view_height);
            &&& scroll < 0 ==> shown.len() == 0
            &&& scroll >= 0 ==> shown.len() == (if scroll >= rows.len() {
                0
            } else if scroll + view_height <= rows.len() {
                view_height as int
            } else {
                rows.len() - scroll
            })
            &&& scroll >= 0 ==> forall|i: int| 0 <= i < shown.len() ==> #[trigger] shown[i] == rows[scroll + i]
        }),
        ({
            let bound = if content_height > view_height {
                content_height - view_height
            } else {
                0
            };
            &&& scroll <= bound ==> viewport_scroll(scroll, content_height, view_height) == scroll
            &&& scroll > bound ==> viewport_scroll(scroll, content_height, view_height) == bound
        }),
{
}

} // verus!

//! The chat flow: the messages sent so far, the prompt being typed, and how
//! far the chat is scrolled.

use vstd::prelude::*;
use crate::text::{lines, lines_of, trim, trimmed, views};
use crate::tui::textarea::TextArea;

verus! {

/// Who wrote a message.
#[derive(Clone, Copy, PartialEq, Eq, Structural, Debug)]
pub enum Role {
    User,
    Assistant,
}

/// One chat message.
#[derive(Clone, Debug)]
pub struct Message {
    pub role: Role,
    pub content: String,
}

/// A message as a value: who wrote it and its text.
pub struct MessageView {
    pub role: Role,
    pub content: Seq<char>,
}

impl View for Message {
    type V = MessageView;

    open spec fn view(&self) -> MessageView {
        MessageView { role: self.role, content: self.content@ }
    }
}

/// The messages as values.
pub open spec fn message_views(messages: Seq<Message>) -> Seq<MessageView> {
    messages.map_values(|m: Message| m@)
}

/// The rows the chat takes: for each message a label row, its lines and a
/// blank row.
pub open spec fn chat_height(messages: Seq<MessageView>) -> int
    decreases messages.len(),
{
    if messages.len() == 0 {
        0
    } else {
        2 + lines_of(messages[0].content).len() + chat_height(messages.drop_first())
    }
}

/// One more message adds its two label rows and its lines to the height.
pub proof fn lemma_chat_height_push(messages: Seq<MessageView>, m: MessageView)
    ensures
        chat_height(messages.push(m)) == chat_height(messages) + 2 + lines_of(m.content).len(),
    decreases messages.len(),
{
    if messages.len() == 0 {
        assert(messages.push(m).drop_first() =~= Seq::<MessageView>::empty());
        assert(chat_height(Seq::<MessageView>::empty()) == 0);
        assert(messages.push(m)[0] == m);
    } else {
        assert(messages.push(m)[0] == messages[0]);
        assert(messages.push(m).drop_first() =~= messages.drop_first().push(m));
        lemma_chat_height_push(messages.drop_first(), m);
    }
}

/// A chat's height is never negative.
pub proof fn lemma_chat_height_nonneg(messages: Seq<MessageView>)
    ensures
        chat_height(messages) >= 0,
    decreases messages.len(),
{
    if messages.len() > 0 {
        lemma_chat_height_nonneg(messages.drop_first());
    }
}

/// `a - b` in `i32`, saturating at the bounds.
pub open spec fn i32_saturating_sub(a: i32, b: i32) -> i32 {
    if a - b < i32::MIN {
        i32::MIN
    } else if a - b > i32::MAX {
        i32::MAX
    } else {
        (a - b) as i32
    }
}

/// `a`, or 0 if `a` is negative.
pub open spec fn max0(a: i32) -> i32 {
    if a < 0 {
        0
    } else {
        a
    }
}

/// The chat scroll after `clamp_scroll`: no further than the content height
/// (as an `i32`) less the view height, and never below 0 for the bound.
pub open spec fn clamped_scroll(scroll: i32, content_height: int, view_height: u16) -> i32 {
    let max_scroll = max0(i32_saturating_sub(content_height as i32, view_height as i32));
    if scroll <= max_scroll {
        scroll
    } else {
        max_scroll
    }
}

/// The chat scroll after `scroll_chat(delta)`: moved by `delta`, kept between
/// 0 and one row short of the content height.
pub open spec fn scrolled(scroll: i32, delta: i32, content_height: int) -> i32 {
    let max_scroll = max0(i32_saturating_sub(content_height as i32, 1));
    let new = scroll + delta;
    if new < 0 {
        0
    } else if new > max_scroll {
        max_scroll
    } else {
        new as i32
    }
}

/// `a - b`, saturating at the bounds of `i32`.
fn saturating_sub_i32(a: i32, b: i32) -> (r: i32)
    ensures
        r == i32_saturating_sub(a, b),
{
    let d: i64 = a as i64 - b as i64;
    if d < i32::MIN as i64 {
        i32::MIN
    } else if d > i32::MAX as i64 {
        i32::MAX
    } else {
        d as i32
    }
}

/// The chat flow.
pub struct AppFlow {
    pub prompt_area: TextArea,
    pub chat_scroll: i32,
    pub messages: Vec<Message>,
}

impl AppFlow {
    /// The prompt's cursor stays within its text.
    pub open spec fn wf(&self) -> bool {
        self.prompt_area.wf()
    }

    /// The rows the chat takes.
    pub open spec fn spec_content_height(&self) -> int {
        chat_height(message_views(self.messages@))
    }

    /// A fresh flow: no messages, an empty prompt, no scroll.
    pub fn init_flow() -> (flow: AppFlow)
        ensures
            flow.wf(),
            flow.chat_scroll == 0,
            flow.messages@.len() == 0,
            flow.prompt_area@.text.len() == 0,
            flow.prompt_area@.cursor == 0,
            flow.prompt_area@.scroll == 0,
    {
        AppFlow { chat_scroll: 0, prompt_area: TextArea::new(), messages: Vec::new() }
    }

    /// Sends the prompt: its text, trimmed, becomes a user message and the
    /// prompt is cleared. A prompt that is blank once trimmed sends nothing
    /// and changes nothing.
    pub fn send_message(&mut self)
        requires
            old(self).wf(),
        ensures
            final(self).wf(),
            final(self).chat_scroll == old(self).chat_scroll,
            trimmed(old(self).prompt_area@.text).len() == 0 ==> *final(self) == *old(self),
            trimmed(old(self).prompt_area@.text).len() > 0 ==> {
                &&& final(self).messages@.len() == old(self).messages@.len() + 1
                &&& final(self).messages@.take(old(self).messages@.len() as int) == old(
                    self,
                ).messages@
                &&& final(self).messages@.last().role == Role::User
                &&& final(self).messages@.last().content@ == trimmed(old(self).prompt_area@.text)
                &&& final(self).prompt_area@.text.len() == 0
                &&& final(self).prompt_area@.cursor == 0
                &&& final(self).prompt_area@.scroll == 0
            },
    {
        let text = trim(self.prompt_area.text());
        if text.as_str().is_empty() {
            return;
        }
        self.messages.push(Message { role: Role::User, content: text });
        assert(self.messages@.take(old(self).messages@.len() as int) =~= old(self).messages@);
        self.prompt_area.clear();
    }

    /// The rows the chat takes: for each message a label row, its lines and
    /// a blank row.
    pub fn content_height(&self) -> (h: usize)
        requires
            self.spec_content_height() <= usize::MAX,
        ensures
            h == self.spec_content_height(),
    {
        let ghost ms = message_views(self.messages@);
        let mut h: usize = 0;
        let mut i: usize = 0;
        assert(ms.take(0) =~= Seq::<MessageView>::empty());
        while i < self.messages.len()
            invariant
                ms == message_views(self.messages@),
                i <= self.messages.len(),
                h == chat_height(ms.take(i as int)),
                chat_height(ms) <= usize::MAX,
            decreases self.messages.len() - i,
        {
            let ls = lines(self.messages[i].content.as_str());
            let n = ls.len();
            proof {
                assert(ms.take(i + 1) =~= ms.take(i as int).push(ms[i as int]));
                lemma_chat_height_push(ms.take(i as int), ms[i as int]);
                lemma_chat_height_split(ms, i + 1);
                assert(views(ls@).len() == n);
                assert(ms[i as int].content == self.messages@[i as int].content@);
            }
            h = h + 2 + n;
            i += 1;
        }
        assert(ms.take(i as int) =~= ms);
        h
    }

    /// Whether the rows the chat takes can be counted in a `usize`, as
    /// `content_height`, `clamp_scroll`, `scroll_chat` and the key map need.
    pub fn content_height_fits(&self) -> (b: bool)
        ensures
            b == (self.spec_content_height() <= usize::MAX),
    {
        let ghost ms = message_views(self.messages@);
        let mut h: usize = 0;
        let mut i: usize = 0;
        assert(ms.take(0) =~= Seq::<MessageView>::empty());
        while i < self.messages.len()
            invariant
                ms == message_views(self.messages@),
                i <= self.messages.len(),
                h == chat_height(ms.take(i as int)),
            decreases self.messages.len() - i,
        {
            let ls = lines(self.messages[i].content.as_str());
            let n = ls.len();
            proof {
                assert(ms.take(i + 1) =~= ms.take(i as int).push(ms[i as int]));
                lemma_chat_height_push(ms.take(i as int), ms[i as int]);
                lemma_chat_height_split(ms, i + 1);
                assert(views(ls@).len() == n);
                assert(ms[i as int].content == self.messages@[i as int].content@);
            }
            if n > usize::MAX - 2 || h > usize::MAX - 2 - n {
                return false;
            }
            h = h + 2 + n;
            i += 1;
        }
        assert(ms.take(i as int) =~= ms);
        true
    }

    /// Keeps the chat scroll no further than the content allows for a view
    /// `view_height` rows high.
    pub fn clamp_scroll(&mut self, view_height: u16)
        requires
            old(self).spec_content_height() <= usize::MAX,
        ensures
            final(self).chat_scroll == clamped_scroll(
                old(self).chat_scroll,
                old(self).spec_content_height(),
                view_height,
            ),
            final(self).prompt_area == old(self).prompt_area,
            final(self).messages == old(self).messages,
    {
        let content_h = self.content_height() as i32;
        let max_scroll = saturating_sub_i32(content_h, view_height as i32);
        let max_scroll = if max_scroll < 0 {
            0
        } else {
            max_scroll
        };
        if self.chat_scroll > max_scroll {
            self.chat_scroll = max_scroll;
        }
    }

    /// Scrolls the chat by `delta` rows, kept between 0 and one row short of
    /// the content height.
    pub fn scroll_chat(&mut self, delta: i32)
        requires
            old(self).spec_content_height() <= usize::MAX,
            i32::MIN <= old(self).chat_scroll + delta <= i32::MAX,
        ensures
            final(self).chat_scroll == scrolled(
                old(self).chat_scroll,
                delta,
                old(self).spec_content_height(),
            ),
            final(self).prompt_area == old(self).prompt_area,
            final(self).messages == old(self).messages,
    {
        let max_scroll = saturating_sub_i32(self.content_height() as i32, 1);
        let max_scroll = if max_scroll < 0 {
            0
        } else {
            max_scroll
        };
        let new = self.chat_scroll + delta;
        self.chat_scroll = if new < 0 {
            0
        } else if new > max_scroll {
            max_scroll
        } else {
            new
        };
    }
}

/// The first messages of a chat take no more rows than the whole chat.
pub proof fn lemma_chat_height_split(ms: Seq<MessageView>, j: int)
    requires
        0 <= j <= ms.len(),
    ensures
        chat_height(ms.take(j)) <= chat_height(ms),
        chat_height(ms.take(j)) >= 0,
    decreases ms.len() - j,
{
    lemma_chat_height_nonneg(ms.take(j));
    if j < ms.len() {
        lemma_chat_height_split(ms, j + 1);
        assert(ms.take(j + 1) =~= ms.take(j).push(ms[j]));
        lemma_chat_height_push(ms.take(j), ms[j]);
    } else {
        assert(ms.take(j) =~= ms);
    }
}

/// Scrolling keeps the chat scroll between 0 and one row short of the content
/// height (0 for an empty chat).
pub proof fn law_scroll_stays_in_range(scroll: i32, delta: i32, content_height: int)
    requires
        0 <= content_height,
        i32::MIN <= scroll + delta <= i32::MAX,
    ensures
        0 <= scrolled(scroll, delta, content_height),
        scrolled(scroll, delta, content_height) <= if content_height > 0 {
            content_height - 1
        } else {
            0
        },
{
}

/// Clamping never scrolls further than the rows that do not fit in the view,
/// and, for a content height that fits in an `i32` (the height is cast to
/// one), leaves a scroll within that bound as it is.
pub proof fn law_clamp_scroll_bound(scroll: i32, content_height: int, view_height: u16)
    requires
        0 <= content_height,
    ensures
        clamped_scroll(scroll, content_height, view_height) <= if content_height > view_height {
            content_height - view_height
        } else {
            0
        },
        content_height <= i32::MAX && scroll <= (if content_height > view_height {
            content_height - view_height
        } else {
            0
        }) ==> clamped_scroll(scroll, content_height, view_height) == scroll,
{
}

/// Scrolling moves the chat by `delta` rows, stopping at the top (row 0)
/// and at the last row of the content (row 0 for an empty chat), for a
/// content height that fits in an `i32`.
pub proof fn law_scroll_moves_by_delta(scroll: i32, delta: i32, content_height: int)
    requires
        0 <= content_height <= i32::MAX,
        i32::MIN <= scroll + delta <= i32::MAX,
    ensures
        ({
            let last = if content_height > 0 {
                content_height - 1
            } else {
                0
            };
            let target = scroll + delta;
            &&& 0 <= target <= last ==> scrolled(scroll, delta, content_height) == target
            &&& target < 0 ==> scrolled(scroll, delta, content_height) == 0
            &&& target > last ==> scrolled(scroll, delta, content_height) == last
        }),
{
}

/// Clamping lowers the scroll to the rows that do not fit in the view (0 if
/// all fit) and never raises it, for a content height that fits in an `i32`.
pub proof fn law_clamp_scroll_lowers_only(scroll: i32, content_height: int, view_height: u16)
    requires
        0 <= content_height <= i32::MAX,
    ensures
        ({
            let bound = if content_height > view_height {
                content_height - view_height
            } else {
                0
            };
            &&& scroll <= bound ==> clamped_scroll(scroll, content_height, view_height) == scroll
            &&& scroll > bound ==> clamped_scroll(scroll, content_height, view_height) == bound
        }),
{
}

/// A chat's rows: each message takes a label row, one row per line of its
/// text and a blank row.
pub proof fn law_chat_height_adds_up(messages: Seq<MessageView>, m: MessageView)
    ensures
        chat_height(Seq::<MessageView>::empty()) == 0,
        chat_height(messages.push(m)) == chat_height(messages) + 2 + lines_of(m.content).len(),
{
    lemma_chat_height_push(messages, m);
}

} // verus!

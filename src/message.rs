//! Received chat messages and the inline commands embedded in them.
use vstd::prelude::*;

verus! {

/// What a message holds.
pub struct MessageView {
    pub body: Seq<char>,
    pub directly_addressed: bool,
    pub source_nickname: Seq<char>,
    pub current_nickname: Seq<char>,
}

/// One received chat message. Its body holds no address prefix such as
/// `bot: `: the transport that built the message has removed it.
pub struct Message {
    body: String,
    is_directly_addressed: bool,
    source_nickname: String,
    current_nickname: String,
}

impl View for Message {
    type V = MessageView;

    closed spec fn view(&self) -> MessageView {
        MessageView {
            body: self.body@,
            directly_addressed: self.is_directly_addressed,
            source_nickname: self.source_nickname@,
            current_nickname: self.current_nickname@,
        }
    }
}

/// The views of a sequence of messages.
pub open spec fn message_views(v: Seq<Message>) -> Seq<MessageView> {
    v.map_values(|m: Message| m@)
}

/// The first index at or after `j` that holds `}`, or the length of `s`.
pub open spec fn find_close(s: Seq<char>, j: int) -> int
    decreases s.len() - j,
{
    if 0 <= j < s.len() && s[j] != '}' {
        find_close(s, j + 1)
    } else {
        j
    }
}

/// The inline bodies in `s[i..]`, left to right: each `{` followed by the
/// shortest run of characters up to the next `}` yields the text between the
/// two. A `{` that no `}` follows ends the scan.
pub open spec fn inline_bodies(s: Seq<char>, i: int) -> Seq<Seq<char>>
    decreases s.len() - i,
    via inline_bodies_decreases
{
    if 0 <= i < s.len() {
        if s[i] == '{' {
            let c = find_close(s, i + 1);
            if c < s.len() {
                seq![s.subrange(i + 1, c)] + inline_bodies(s, c + 1)
            } else {
                seq![]
            }
        } else {
            inline_bodies(s, i + 1)
        }
    } else {
        seq![]
    }
}

#[via_fn]
proof fn inline_bodies_decreases(s: Seq<char>, i: int) {
    if 0 <= i < s.len() && s[i] == '{' {
        lemma_find_close(s, i + 1);
    }
}

/// `find_close` stops at the first `}` at or after `j`.
pub proof fn lemma_find_close(s: Seq<char>, j: int)
    requires
        0 <= j,
    ensures
        j <= find_close(s, j),
        j <= s.len() ==> find_close(s, j) <= s.len(),
        forall|k: int| j <= k < find_close(s, j) ==> #[trigger] s[k] != '}',
        find_close(s, j) < s.len() ==> s[find_close(s, j)] == '}',
    decreases s.len() - j,
{
    if 0 <= j < s.len() && s[j] != '}' {
        lemma_find_close(s, j + 1);
    }
}

/// The messages derived from `m`'s inline commands: none when `m` is aimed
/// at the bot directly, else one per inline body, each inheriting all but its
/// body from `m`.
pub open spec fn inline_messages(m: MessageView) -> Seq<MessageView> {
    if m.directly_addressed {
        seq![]
    } else {
        inline_bodies(m.body, 0).map_values(|b: Seq<char>| MessageView { body: b, ..m })
    }
}

impl Message {
    pub fn new(
        body: String,
        is_directly_addressed: bool,
        source_nickname: String,
        current_nickname: String,
    ) -> (r: Message)
        ensures
            r@ == (MessageView {
                body: body@,
                directly_addressed: is_directly_addressed,
                source_nickname: source_nickname@,
                current_nickname: current_nickname@,
            }),
    {
        Message { body, is_directly_addressed, source_nickname, current_nickname }
    }

    /// The body of the message, without address prefixes.
    pub fn body(&self) -> (r: &str)
        ensures
            r@ == self@.body,
    {
        self.body.as_str()
    }

    /// Whether the message was aimed at the bot directly, by a private
    /// message or by a channel message that starts with the bot's name and
    /// `:` or `,`.
    pub fn is_directly_addressed(&self) -> (r: bool)
        ensures
            r == self@.directly_addressed,
    {
        self.is_directly_addressed
    }

    pub fn source_nickname(&self) -> (r: &str)
        ensures
            r@ == self@.source_nickname,
    {
        self.source_nickname.as_str()
    }

    pub fn current_nickname(&self) -> (r: &str)
        ensures
            r@ == self@.current_nickname,
    {
        self.current_nickname.as_str()
    }

    /// A copy of the message with another body.
    pub fn with_body(&self, body: String) -> (r: Message)
        ensures
            r@ == (MessageView { body: body@, ..self@ }),
    {
        Message {
            body,
            is_directly_addressed: self.is_directly_addressed,
            source_nickname: self.source_nickname.clone(),
            current_nickname: self.current_nickname.clone(),
        }
    }

    /// A copy of the message.
    pub fn duplicate(&self) -> (r: Message)
        ensures
            r@ == self@,
    {
        self.with_body(self.body.clone())
    }

    /// The messages derived from the inline commands in this one.
    pub fn inline_messages(&self) -> (r: Vec<Message>)
        ensures
            message_views(r@) == inline_messages(self@),
    {
        InlineMessage::from_message(self)
    }
}

/// Extraction of the inline commands that ordinary chat text embeds between
/// braces, as in `look at {?crate serde}`.
pub struct InlineMessage {}

impl InlineMessage {
    /// The messages derived from `message`, left to right.
    pub fn from_message(message: &Message) -> (r: Vec<Message>)
        ensures
            message_views(r@) == inline_messages(message@),
    {
        let mut out: Vec<Message> = Vec::new();
        if message.is_directly_addressed() {
            proof {
                assert(message_views(out@) =~= inline_messages(message@));
            }
            return out;
        }
        let body = message.body();
        let n = body.unicode_len();
        let ghost s = body@;
        let ghost f = |b: Seq<char>| MessageView { body: b, ..message@ };
        let mut i: usize = 0;
        while i < n
            invariant
                s == body@,
                s == message@.body,
                !message@.directly_addressed,
                n == s.len(),
                i <= n,
                f == (|b: Seq<char>| MessageView { body: b, ..message@ }),
                message_views(out@) + inline_bodies(s, i as int).map_values(f) == inline_bodies(
                    s,
                    0,
                ).map_values(f),
            decreases n - i,
        {
            if body.get_char(i) == '{' {
                proof {
                    lemma_find_close(s, i as int + 1);
                }
                let mut c = i + 1;
                while c < n && body.get_char(c) != '}'
                    invariant
                        s == body@,
                        n == s.len(),
                        i < c <= n,
                        find_close(s, c as int) == find_close(s, i as int + 1),
                    decreases n - c,
                {
                    c += 1;
                }
                if c == n {
                    proof {
                        assert(inline_bodies(s, i as int) =~= seq![]);
                        assert(inline_bodies(s, i as int).map_values(f) =~= seq![]);
                        assert(message_views(out@) =~= message_views(out@) + inline_bodies(
                            s,
                            i as int,
                        ).map_values(f));
                    }
                    i = n;
                } else {
                    let inner = body.substring_char(i + 1, c);
                    let derived = message.with_body(inner.to_owned());
                    let ghost before = out@;
                    out.push(derived);
                    proof {
                        let rest = inline_bodies(s, c as int + 1);
                        assert(inline_bodies(s, i as int) == seq![inner@] + rest);
                        assert(derived@ == f(inner@));
                        assert(message_views(out@) =~= message_views(before).push(derived@));
                        assert((seq![inner@] + rest).map_values(f) =~= seq![f(inner@)]
                            + rest.map_values(f));
                        assert(message_views(out@) + rest.map_values(f) =~= message_views(before)
                            + inline_bodies(s, i as int).map_values(f));
                    }
                    i = c + 1;
                }
            } else {
                i += 1;
            }
        }
        proof {
            assert(inline_bodies(s, n as int).map_values(f) =~= seq![]);
            assert(message_views(out@) =~= message_views(out@) + inline_bodies(
                s,
                n as int,
            ).map_values(f));
            assert(inline_messages(message@) == inline_bodies(s, 0).map_values(f));
        }
        out
    }
}

/// Extracting twice from one unchanged message gives equal sequences: the
/// result is a function of the message alone.
pub proof fn lemma_inline_extraction_deterministic(m: MessageView, r1: Seq<MessageView>, r2: Seq<MessageView>)
    requires
        r1 == inline_messages(m),
        r2 == inline_messages(m),
    ensures
        r1 == r2,
{
}

/// A message aimed at the bot directly yields no inline messages.
pub proof fn lemma_addressed_has_no_inline(m: MessageView)
    requires
        m.directly_addressed,
    ensures
        inline_messages(m).len() == 0,
{
}

} // verus!

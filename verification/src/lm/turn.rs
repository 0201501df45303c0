//! A conversation as it is built, and the messages a request carries.
use vstd::prelude::*;
use crate::duplicate::{append, Duplicate};
use crate::example::{Value, ValueModel};

verus! {

/// One side of a conversation.
#[derive(Clone, Copy, Debug, PartialEq, Eq, Structural)]
pub enum Role {
    User,
    Assistant,
    /// What a tool returned.
    Tool,
}

impl Role {
    /// The name a role travels under.
    pub open spec fn name(self) -> Seq<char> {
        match self {
            Role::User => "user"@,
            Role::Assistant => "assistant"@,
            Role::Tool => "tool"@,
        }
    }

    /// The name a role travels under.
    pub fn as_str(self) -> (r: &'static str)
        ensures
            r@ == self.name(),
    {
        match self {
            Role::User => "user",
            Role::Assistant => "assistant",
            Role::Tool => "tool",
        }
    }
}

/// One part of a message.
#[derive(Debug)]
pub enum LmPart {
    Text(String),
    /// Anything else, as the block that spells it.
    Block(Value),
}

/// What an [`LmPart`] holds.
#[verifier::ext_equal]
pub enum PartModel {
    Text(Seq<char>),
    Block(ValueModel),
}

impl DeepView for LmPart {
    type V = PartModel;

    open spec fn deep_view(&self) -> PartModel {
        match *self {
            LmPart::Text(text) => PartModel::Text(text@),
            LmPart::Block(block) => PartModel::Block(block.deep_view()),
        }
    }
}

impl Duplicate for LmPart {
    fn duplicate(&self) -> (r: Self) {
        match self {
            LmPart::Text(text) => LmPart::Text(text.clone()),
            LmPart::Block(block) => LmPart::Block(block.duplicate()),
        }
    }
}

/// What a turn says.
#[derive(Debug)]
pub enum Content {
    Text(String),
    /// Content blocks, text and media.
    Blocks(Vec<Value>),
    /// Parts that no content block spells, such as a tool's result.
    Parts(Vec<LmPart>),
}

/// What a [`Content`] holds.
#[verifier::ext_equal]
pub enum ContentModel {
    Text(Seq<char>),
    Blocks(Seq<ValueModel>),
    Parts(Seq<PartModel>),
}

impl DeepView for Content {
    type V = ContentModel;

    open spec fn deep_view(&self) -> ContentModel {
        match *self {
            Content::Text(text) => ContentModel::Text(text@),
            Content::Blocks(blocks) => ContentModel::Blocks(blocks.deep_view()),
            Content::Parts(parts) => ContentModel::Parts(parts.deep_view()),
        }
    }
}

impl Duplicate for Content {
    fn duplicate(&self) -> (r: Self) {
        match self {
            Content::Text(text) => Content::Text(text.clone()),
            Content::Blocks(blocks) => Content::Blocks(blocks.duplicate()),
            Content::Parts(parts) => Content::Parts(parts.duplicate()),
        }
    }
}

/// One turn of a conversation.
#[derive(Debug)]
pub struct ChatTurn {
    pub role: Role,
    pub content: Content,
}

/// What a [`ChatTurn`] holds.
#[verifier::ext_equal]
pub struct TurnModel {
    pub role: Role,
    pub content: ContentModel,
}

impl DeepView for ChatTurn {
    type V = TurnModel;

    open spec fn deep_view(&self) -> TurnModel {
        TurnModel { role: self.role, content: self.content.deep_view() }
    }
}

impl Duplicate for ChatTurn {
    fn duplicate(&self) -> (r: Self) {
        ChatTurn { role: self.role, content: self.content.duplicate() }
    }
}

impl ChatTurn {
    pub fn user(content: Content) -> (r: ChatTurn)
        ensures
            r.deep_view() == (TurnModel { role: Role::User, content: content.deep_view() }),
    {
        ChatTurn { role: Role::User, content }
    }

    pub fn assistant(content: Content) -> (r: ChatTurn)
        ensures
            r.deep_view() == (TurnModel { role: Role::Assistant, content: content.deep_view() }),
    {
        ChatTurn { role: Role::Assistant, content }
    }
}

/// What a reply should look like: free text, or JSON of a schema.
#[derive(Clone, Copy, Debug)]
pub enum OutputMode<'a> {
    Text,
    Json { schema: &'a Value },
}

/// One message of a request.
#[derive(Debug)]
pub struct LmMessage {
    pub role: String,
    pub parts: Vec<LmPart>,
}

/// What an [`LmMessage`] holds.
#[verifier::ext_equal]
pub struct MessageModel {
    pub role: Seq<char>,
    pub parts: Seq<PartModel>,
}

impl DeepView for LmMessage {
    type V = MessageModel;

    open spec fn deep_view(&self) -> MessageModel {
        MessageModel { role: self.role@, parts: self.parts.deep_view() }
    }
}

impl LmMessage {
    /// The message's text, where it is one part of text.
    pub fn text(&self) -> (r: Option<&str>)
        ensures
            match r {
                Some(text) => self.deep_view().parts == seq![PartModel::Text(text@)],
                None => !(self.deep_view().parts.len() == 1 && self.deep_view().parts[0] is Text),
            },
    {
        if self.parts.len() == 1 {
            proof {
                assert(self.deep_view().parts[0] == self.parts@[0].deep_view());
            }
            match &self.parts[0] {
                LmPart::Text(text) => {
                    proof {
                        assert(self.deep_view().parts =~= seq![PartModel::Text(text@)]);
                    }
                    Some(text.as_str())
                },
                LmPart::Block(_) => None,
            }
        } else {
            None
        }
    }
}

/// The parts a turn's content is made of.
pub open spec fn content_parts(content: ContentModel) -> Seq<PartModel> {
    match content {
        ContentModel::Text(text) => seq![PartModel::Text(text)],
        ContentModel::Blocks(blocks) => Seq::new(
            blocks.len(),
            |i: int| PartModel::Block(blocks[i]),
        ),
        ContentModel::Parts(parts) => parts,
    }
}

/// A conversation as messages: the system prompt first, then each turn under its role.
pub open spec fn conversation(system: Seq<char>, turns: Seq<TurnModel>) -> Seq<MessageModel> {
    seq![MessageModel { role: "system"@, parts: seq![PartModel::Text(system)] }] + Seq::new(
        turns.len(),
        |i: int|
            MessageModel { role: turns[i].role.name(), parts: content_parts(turns[i].content) },
    )
}

fn parts_of(content: &Content) -> (r: Vec<LmPart>)
    ensures
        r.deep_view() == content_parts(content.deep_view()),
{
    match content {
        Content::Text(text) => {
            let mut r: Vec<LmPart> = Vec::new();
            append(&mut r, LmPart::Text(text.clone()));
            proof {
                assert(r.deep_view() =~= content_parts(content.deep_view()));
            }
            r
        },
        Content::Blocks(blocks) => {
            let ghost all = content_parts(content.deep_view());
            let mut r: Vec<LmPart> = Vec::new();
            let mut i: usize = 0;
            while i < blocks.len()
                invariant
                    i <= blocks@.len(),
                    content.deep_view() == ContentModel::Blocks(blocks.deep_view()),
                    all == content_parts(content.deep_view()),
                    r.deep_view() =~= all.take(i as int),
                decreases blocks@.len() - i,
            {
                append(&mut r, LmPart::Block(blocks[i].duplicate()));
                i = i + 1;
            }
            proof {
                assert(all.take(i as int) =~= all);
            }
            r
        },
        Content::Parts(parts) => parts.duplicate(),
    }
}

/// The messages of a request: the system prompt, even an empty one, and then each turn.
pub fn messages_of(system: &str, turns: &Vec<ChatTurn>) -> (r: Vec<LmMessage>)
    ensures
        r.deep_view() == conversation(system@, turns.deep_view()),
{
    let ghost all = conversation(system@, turns.deep_view());
    let mut first: Vec<LmPart> = Vec::new();
    append(&mut first, LmPart::Text(system.to_owned()));
    let mut messages: Vec<LmMessage> = Vec::new();
    let opening = LmMessage { role: "system".to_owned(), parts: first };
    proof {
        assert(opening.deep_view().parts =~= seq![PartModel::Text(system@)]);
    }
    append(&mut messages, opening);
    let mut i: usize = 0;
    while i < turns.len()
        invariant
            i <= turns@.len(),
            all == conversation(system@, turns.deep_view()),
            messages.deep_view() =~= all.take(i + 1),
        decreases turns@.len() - i,
    {
        let turn = &turns[i];
        append(
            &mut messages,
            LmMessage { role: turn.role.as_str().to_owned(), parts: parts_of(&turn.content) },
        );
        proof {
            assert(turns.deep_view()[i as int] == turn.deep_view());
        }
        i = i + 1;
    }
    proof {
        assert(all.take(i + 1) =~= all);
    }
    messages
}

/// The system message always leads, and every turn follows in its place.
pub proof fn law_the_system_message_leads(system: Seq<char>, turns: Seq<TurnModel>, i: int)
    requires
        0 <= i < turns.len(),
    ensures
        conversation(system, turns).len() == turns.len() + 1,
        conversation(system, turns)[0].role == "system"@,
        conversation(system, turns)[i + 1].role == turns[i].role.name(),
{
}

/// A conversation keeps what every turn says: a text as its one part, blocks and parts as they are,
/// in order, behind the system prompt.
pub proof fn law_every_turn_is_said_in_full(system: Seq<char>, turns: Seq<TurnModel>, i: int)
    requires
        0 <= i < turns.len(),
    ensures
        ({
            let messages = conversation(system, turns);
            &&& messages.len() == turns.len() + 1
            &&& messages[0].role == "system"@
            &&& messages[0].parts == seq![PartModel::Text(system)]
            &&& messages[i + 1].role == match turns[i].role {
                Role::User => "user"@,
                Role::Assistant => "assistant"@,
                Role::Tool => "tool"@,
            }
            &&& match turns[i].content {
                ContentModel::Text(text) => messages[i + 1].parts == seq![PartModel::Text(text)],
                ContentModel::Blocks(blocks) => messages[i + 1].parts.len() == blocks.len()
                    && forall|b: int|
                    0 <= b < blocks.len() ==> #[trigger] messages[i + 1].parts[b]
                        == PartModel::Block(blocks[b]),
                ContentModel::Parts(parts) => messages[i + 1].parts == parts,
            }
        }),
{
}

} // verus!

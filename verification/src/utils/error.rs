//! The closed set of answers a client can receive in place of data: a
//! stable code to switch on, and a message to show.

use vstd::prelude::*;

verus! {

/// A status code together with a human-readable message.
#[derive(Debug, PartialEq, Eq)]
pub struct Answer {
    pub code: u32,
    pub msg: String,
}

/// The mathematical content of an [`Answer`].
pub struct AnswerView {
    pub code: u32,
    pub msg: Seq<char>,
}

impl View for Answer {
    type V = AnswerView;

    open spec fn view(&self) -> AnswerView {
        AnswerView { code: self.code, msg: self.msg@ }
    }
}

/// The kinds of answer there are.
#[derive(Debug, Clone, Copy, PartialEq, Eq, Structural)]
pub enum Code {
    Success,
    NotFound,
    CantAuth,
    PositionCantUpdate,
    HashCantQuery,
    BinaryCantCreate,
    PositionCantQuery,
    CantRegister,
    CantLogin,
    AudiobooksCantQuery,
}

impl Code {
    /// The number that a client sees.
    pub open spec fn number(self) -> u32 {
        match self {
            Code::Success => 0,
            Code::NotFound => 1,
            Code::CantAuth => 2,
            Code::PositionCantUpdate => 3,
            Code::HashCantQuery => 4,
            Code::BinaryCantCreate => 5,
            Code::PositionCantQuery => 6,
            Code::CantRegister => 7,
            Code::CantLogin => 8,
            Code::AudiobooksCantQuery => 9,
        }
    }

    /// The message that goes with the number.
    pub open spec fn message(self) -> Seq<char> {
        match self {
            Code::Success => "Success"@,
            Code::NotFound => "Error, endpoint does not exists"@,
            Code::CantAuth => "Error, could not authenticate"@,
            Code::PositionCantUpdate => "Error, could not update position"@,
            Code::HashCantQuery => "Error, hash not available"@,
            Code::BinaryCantCreate => "Error, could not create binary data"@,
            Code::PositionCantQuery => "Error, could not get position"@,
            Code::CantRegister => "Error, could not register"@,
            Code::CantLogin => "Error, could not login"@,
            Code::AudiobooksCantQuery => "Error, could not query audiobooks"@,
        }
    }

    /// The answer of this kind.
    pub open spec fn answer(self) -> AnswerView {
        AnswerView { code: self.number(), msg: self.message() }
    }
}

/// The request was carried out.
pub fn success() -> (answer: Answer)
    ensures
        answer@ == Code::Success.answer(),
{
    Answer { code: 0, msg: "Success".to_owned() }
}

/// There is no such endpoint.
pub fn not_found() -> (answer: Answer)
    ensures
        answer@ == Code::NotFound.answer(),
{
    Answer { code: 1, msg: "Error, endpoint does not exists".to_owned() }
}

/// The key of the request stands for no user.
pub fn cant_auth() -> (answer: Answer)
    ensures
        answer@ == Code::CantAuth.answer(),
{
    Answer { code: 2, msg: "Error, could not authenticate".to_owned() }
}

/// The position could not be written.
pub fn position_cant_update() -> (answer: Answer)
    ensures
        answer@ == Code::PositionCantUpdate.answer(),
{
    Answer { code: 3, msg: "Error, could not update position".to_owned() }
}

/// The catalog has no audiobook under the identifier.
pub fn hash_cant_query() -> (answer: Answer)
    ensures
        answer@ == Code::HashCantQuery.answer(),
{
    Answer { code: 4, msg: "Error, hash not available".to_owned() }
}

/// The archive of the audiobook could not be built.
pub fn binary_cant_create() -> (answer: Answer)
    ensures
        answer@ == Code::BinaryCantCreate.answer(),
{
    Answer { code: 5, msg: "Error, could not create binary data".to_owned() }
}

/// No position could be read.
pub fn position_cant_query() -> (answer: Answer)
    ensures
        answer@ == Code::PositionCantQuery.answer(),
{
    Answer { code: 6, msg: "Error, could not get position".to_owned() }
}

/// The account could not be created.
pub fn cant_register() -> (answer: Answer)
    ensures
        answer@ == Code::CantRegister.answer(),
{
    Answer { code: 7, msg: "Error, could not register".to_owned() }
}

/// The credentials match no account.
pub fn cant_login() -> (answer: Answer)
    ensures
        answer@ == Code::CantLogin.answer(),
{
    Answer { code: 8, msg: "Error, could not login".to_owned() }
}

/// The catalog could not be listed.
pub fn audiobooks_cant_query() -> (answer: Answer)
    ensures
        answer@ == Code::AudiobooksCantQuery.answer(),
{
    Answer { code: 9, msg: "Error, could not query audiobooks".to_owned() }
}

/// No two kinds of answer share a number: a client can tell them apart by
/// the number alone.
pub proof fn lemma_numbers_distinct(a: Code, b: Code)
    ensures
        a.number() == b.number() <==> a == b,
{
}

} // verus!

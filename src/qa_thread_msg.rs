//! Messages of a question-and-answer thread between key holders and the key
//! issuer.

use vstd::prelude::*;

verus! {

#[derive(Clone, Debug)]
pub enum QAThreadMsg {
    /// A key holder pays to ask the key issuer a question.
    Question(Question),
    /// The key issuer answers a question and collects the reward.
    Answer(Answer),
}

#[derive(Clone, Debug)]
pub struct Question {
    /// Identifier within the thread, increasing.
    pub id: u64,
    pub qa_thread_id: u64,
    pub ask_by_addr: String,
    pub content: String,
}

#[derive(Clone, Debug)]
pub struct Answer {
    /// Identifier within the thread, increasing.
    pub id: u64,
    pub qa_thread_id: u64,
    /// Always the key issuer of the thread.
    pub answer_by_addr: String,
    pub content: String,
    /// The question this answers; a question may have several answers.
    pub reply_to_question_id: u64,
}

} // verus!

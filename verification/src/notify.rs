//! The texts of the notification that reports a question and its answer to a
//! Telegram chat. Sending them is the caller's part.

use vstd::prelude::*;
use vstd::string::*;

verus! {

/// The body of the notification, in Markdown.
pub open spec fn notification_text(query: Seq<char>, answer: Seq<char>) -> Seq<char> {
    "\n    *Question:*\n\n    "@ + query + "\n\n    *Answer:*\n\n    "@ + answer + "\n    "@
}

/// The address to which a bot with `token` posts a message.
pub open spec fn send_message_address(token: Seq<char>) -> Seq<char> {
    "https://api.telegram.org/bot"@ + token + "/sendMessage"@
}

/// Writes the body of the notification for one question and its answer.
pub fn notification(query: &str, answer: &str) -> (text: String)
    ensures
        text@ == notification_text(query@, answer@),
{
    String::from_str("\n    *Question:*\n\n    ").concat(query).concat(
        "\n\n    *Answer:*\n\n    ",
    ).concat(answer).concat("\n    ")
}

/// Writes the address to which a bot with `token` posts a message.
pub fn send_message_url(token: &str) -> (url: String)
    ensures
        url@ == send_message_address(token@),
{
    String::from_str("https://api.telegram.org/bot").concat(token).concat("/sendMessage")
}

} // verus!

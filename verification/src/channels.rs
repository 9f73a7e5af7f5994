//! Channels through which messages reach the agent.
use vstd::prelude::*;

verus! {

/// A message from a user on a channel.
#[derive(Debug, Clone)]
pub struct IncomingMessage {
    pub channel: String,
    pub user: String,
    pub text: String,
}

/// A reply to send back on a channel.
#[derive(Debug, Clone)]
pub struct OutgoingMessage {
    pub channel: String,
    pub text: String,
}

/// A source of messages that turns raw input into an `IncomingMessage`.
pub trait ChannelAdapter {
    fn name(&self) -> &str;

    fn normalize(&self, user: &str, text: &str) -> IncomingMessage;
}

/// The command-line channel.
#[derive(Debug, Default)]
pub struct CliAdapter;

impl ChannelAdapter for CliAdapter {
    fn name(&self) -> (r: &str)
        ensures
            r@ == "cli"@,
    {
        "cli"
    }

    fn normalize(&self, user: &str, text: &str) -> (m: IncomingMessage)
        ensures
            m.channel@ == "cli"@,
            m.user@ == user@,
            m.text@ == text@,
    {
        IncomingMessage {
            channel: String::from_str(self.name()),
            user: String::from_str(user),
            text: String::from_str(text),
        }
    }
}

/// The webhook channel.
#[derive(Debug, Default)]
pub struct WebhookAdapter;

impl ChannelAdapter for WebhookAdapter {
    fn name(&self) -> (r: &str)
        ensures
            r@ == "webhook"@,
    {
        "webhook"
    }

    fn normalize(&self, user: &str, text: &str) -> (m: IncomingMessage)
        ensures
            m.channel@ == "webhook"@,
            m.user@ == user@,
            m.text@ == text@,
    {
        IncomingMessage {
            channel: String::from_str(self.name()),
            user: String::from_str(user),
            text: String::from_str(text),
        }
    }
}

} // verus!

use crate::address::{trim, trim_of, valid_identity};
use crate::channel::{opt_str_view, reply_subject_of, EmailChannel};
use crate::markdown::markdown_html_of;
use crate::thread_meta::{opt_meta_view, opt_view, split_spec, EmailThreadMeta, MetaView};
use vstd::prelude::*;
use vstd::string::*;

verus! {

/// Why a reply cannot be composed.
#[derive(Clone, Copy, Debug, PartialEq, Eq)]
pub enum SendError {
    /// The configured sender address cannot stand in a header.
    InvalidFromAddress,
    /// The target address cannot stand in a header.
    InvalidRecipient,
}

/// Everything a transport needs to send one threaded reply.
pub struct ReplyPlan {
    pub from: String,
    pub to: String,
    pub subject: String,
    /// The message answered, for the `In-Reply-To` and `References` headers.
    pub in_reply_to: Option<String>,
    pub text: String,
    pub html: String,
}

pub open spec fn thread_subject(meta: Option<MetaView>) -> Option<Seq<char>> {
    match meta {
        Some(m) => m.1,
        None => None,
    }
}

/// The message id that a reply refers to: the record's id, trimmed, if not blank.
pub open spec fn reply_reference(meta: Option<MetaView>) -> Option<Seq<char>> {
    match meta {
        Some(m) => match m.0 {
            Some(id) => if trim_of(id).len() > 0 {
                Some(trim_of(id))
            } else {
                None
            },
            None => None,
        },
        None => None,
    }
}

fn opt_as_str(o: &Option<String>) -> (r: Option<&str>)
    ensures
        opt_str_view(r) == opt_view(*o),
{
    match o {
        Some(s) => Some(s.as_str()),
        None => None,
    }
}

impl EmailChannel {
    /// Composes the reply to send for a markdown `message` and a recipient in
    /// wire form.
    pub fn compose_reply(&self, message: &str, recipient: &str) -> (r: Result<ReplyPlan, SendError>)
        ensures
            ({
                let (addr, meta) = split_spec(recipient@);
                match r {
                    Err(SendError::InvalidFromAddress) => !valid_identity(self.from_address_view()),
                    Err(SendError::InvalidRecipient) => valid_identity(self.from_address_view())
                        && !valid_identity(addr),
                    Ok(p) => {
                        &&& valid_identity(self.from_address_view())
                        &&& valid_identity(addr)
                        &&& p.from@ == self.from_address_view()
                        &&& p.to@ == addr
                        &&& p.subject@ == reply_subject_of(thread_subject(meta))
                        &&& opt_view(p.in_reply_to) == reply_reference(meta)
                        &&& p.text@ == message@
                        &&& p.html@ == markdown_html_of(message@)
                    },
                }
            }),
    {
        let (email, meta) = EmailChannel::parse_recipient_and_thread_meta(recipient);
        if !self.has_valid_from_address() {
            return Err(SendError::InvalidFromAddress);
        }
        if !EmailChannel::validate_email_identity(email) {
            return Err(SendError::InvalidRecipient);
        }
        let (subject, in_reply_to) = match &meta {
            Some(m) => {
                let subject = EmailChannel::reply_subject(opt_as_str(&m.subject));
                let reference = match &m.message_id {
                    Some(id) => crate::address::nonempty_text(trim(id.as_str())),
                    None => None,
                };
                (subject, reference)
            },
            None => (EmailChannel::reply_subject(None), None),
        };
        let html = EmailChannel::markdown_to_html(message);
        Ok(
            ReplyPlan {
                from: String::from_str(self.from_address()),
                to: String::from_str(email),
                subject,
                in_reply_to,
                text: String::from_str(message),
                html,
            },
        )
    }
}

} // verus!

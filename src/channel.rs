use crate::address::{
    ascii_lower, ascii_lower_char, eq_ignore_ascii_case, str_eq_ignore_ascii_case, trim,
    trim_of,
};
use vstd::prelude::*;
use vstd::string::*;

verus! {

/// Connection settings and sender policy of one mailbox.
#[derive(Clone)]
pub struct EmailChannel {
    imap_host: String,
    imap_port: u16,
    imap_login: String,
    imap_password: String,
    imap_starttls: bool,
    smtp_host: String,
    smtp_port: u16,
    smtp_login: String,
    smtp_password: String,
    smtp_starttls: bool,
    from_address: String,
    inbox_folder: String,
    poll_interval_secs: u64,
    allowed_senders: Vec<String>,
}

/// The shortest pause between two polls, in seconds.
pub const MIN_POLL_INTERVAL_SECS: u64 = 5;

pub open spec fn views(v: Seq<String>) -> Seq<Seq<char>> {
    v.map_values(|s: String| s@)
}

/// An allow-list lets a sender through when it holds the wildcard `*`, or an entry
/// equal to the sender up to ASCII case.
pub open spec fn sender_allowed(list: Seq<Seq<char>>, sender: Seq<char>) -> bool {
    (exists|i: int| 0 <= i < list.len() && list[i] == seq!['*'])
    || (exists|i: int| 0 <= i < list.len() && eq_ignore_ascii_case(list[i], sender))
}

pub open spec fn default_subject() -> Seq<char> {
    seq!['Z', 'e', 'r', 'o', 'C', 'l', 'a', 'w', ' ', 'r', 'e', 'p', 'l', 'y']
}

pub open spec fn re_prefix() -> Seq<char> {
    seq!['R', 'e', ':', ' ']
}

/// The subject starts with `re:` in any ASCII case.
pub open spec fn has_re_prefix(t: Seq<char>) -> bool {
    t.len() >= 3 && ascii_lower(t[0]) == 'r' && ascii_lower(t[1]) == 'e' && t[2] == ':'
}

/// The subject of a reply to a message with the given subject.
pub open spec fn reply_subject_of(subject: Option<Seq<char>>) -> Seq<char> {
    match subject {
        None => default_subject(),
        Some(s) => subject_of_trimmed(trim_of(s)),
    }
}

/// The subject of a reply to a message whose subject, trimmed, is `t`.
pub open spec fn subject_of_trimmed(t: Seq<char>) -> Seq<char> {
    if t.len() == 0 {
        default_subject()
    } else if has_re_prefix(t) {
        t
    } else {
        re_prefix() + t
    }
}

pub open spec fn opt_str_view(o: Option<&str>) -> Option<Seq<char>> {
    match o {
        None => None,
        Some(s) => Some(s@),
    }
}

impl EmailChannel {
    pub closed spec fn allow_list(&self) -> Seq<Seq<char>> {
        views(self.allowed_senders@)
    }

    pub closed spec fn from_address_view(&self) -> Seq<char> {
        self.from_address@
    }

    pub closed spec fn imap_host_view(&self) -> Seq<char> {
        self.imap_host@
    }

    pub closed spec fn imap_login_view(&self) -> Seq<char> {
        self.imap_login@
    }

    pub closed spec fn imap_password_view(&self) -> Seq<char> {
        self.imap_password@
    }

    pub closed spec fn smtp_host_view(&self) -> Seq<char> {
        self.smtp_host@
    }

    pub closed spec fn smtp_login_view(&self) -> Seq<char> {
        self.smtp_login@
    }

    pub closed spec fn smtp_password_view(&self) -> Seq<char> {
        self.smtp_password@
    }

    pub closed spec fn inbox_folder_view(&self) -> Seq<char> {
        self.inbox_folder@
    }

    pub closed spec fn imap_port_view(&self) -> u16 {
        self.imap_port
    }

    pub closed spec fn imap_starttls_view(&self) -> bool {
        self.imap_starttls
    }

    pub closed spec fn smtp_port_view(&self) -> u16 {
        self.smtp_port
    }

    pub closed spec fn smtp_starttls_view(&self) -> bool {
        self.smtp_starttls
    }

    pub closed spec fn poll_interval(&self) -> u64 {
        self.poll_interval_secs
    }

    pub fn new(
        imap_host: String,
        imap_port: u16,
        imap_login: String,
        imap_password: String,
        imap_starttls: bool,
        smtp_host: String,
        smtp_port: u16,
        smtp_login: String,
        smtp_password: String,
        smtp_starttls: bool,
        from_address: String,
        inbox_folder: String,
        poll_interval_secs: u64,
        allowed_senders: Vec<String>,
    ) -> (r: Self)
        ensures
            r.allow_list() == views(allowed_senders@),
            r.from_address_view() == from_address@,
            r.poll_interval() == poll_interval_secs,
            r.imap_host_view() == imap_host@,
            r.imap_login_view() == imap_login@,
            r.imap_password_view() == imap_password@,
            r.smtp_host_view() == smtp_host@,
            r.smtp_login_view() == smtp_login@,
            r.smtp_password_view() == smtp_password@,
            r.inbox_folder_view() == inbox_folder@,
            r.imap_port_view() == imap_port,
            r.imap_starttls_view() == imap_starttls,
            r.smtp_port_view() == smtp_port,
            r.smtp_starttls_view() == smtp_starttls,
    {
        EmailChannel {
            imap_host,
            imap_port,
            imap_login,
            imap_password,
            imap_starttls,
            smtp_host,
            smtp_port,
            smtp_login,
            smtp_password,
            smtp_starttls,
            from_address,
            inbox_folder,
            poll_interval_secs,
            allowed_senders,
        }
    }

    /// The channel's constant name.
    pub fn name(&self) -> (r: &'static str)
        ensures
            r@ == seq!['e', 'm', 'a', 'i', 'l'],
    {
        proof {
            reveal_strlit("email");
        }
        "email"
    }

    /// Whether the allow-list lets through messages from `sender`.
    pub fn is_sender_allowed(&self, sender: &str) -> (r: bool)
        ensures
            r == sender_allowed(self.allow_list(), sender@),
    {
        let list = &self.allowed_senders;
        let n = list.len();
        let mut i: usize = 0;
        while i < n
            invariant
                n == list@.len(),
                list == &self.allowed_senders,
                0 <= i <= n,
                forall|j: int| 0 <= j < i ==> list@[j]@ != seq!['*'],
            decreases n - i,
        {
            let e = list[i].as_str();
            if e.unicode_len() == 1 && e.get_char(0) == '*' {
                assert(e@ =~= seq!['*']);
                assert(self.allow_list()[i as int] == seq!['*']);
                return true;
            }
            i = i + 1;
        }
        let mut k: usize = 0;
        while k < n
            invariant
                n == list@.len(),
                list == &self.allowed_senders,
                0 <= k <= n,
                forall|j: int| 0 <= j < n ==> list@[j]@ != seq!['*'],
                forall|j: int| 0 <= j < k ==> !eq_ignore_ascii_case(list@[j]@, sender@),
            decreases n - k,
        {
            if str_eq_ignore_ascii_case(list[k].as_str(), sender) {
                assert(self.allow_list()[k as int] == list@[k as int]@);
                return true;
            }
            k = k + 1;
        }
        proof {
            assert forall|j: int| 0 <= j < self.allow_list().len() implies self.allow_list()[j]
                != seq!['*'] && !eq_ignore_ascii_case(self.allow_list()[j], sender@) by {
                assert(self.allow_list()[j] == list@[j]@);
            }
        }
        false
    }

    /// The configured sender address.
    pub fn from_address(&self) -> (r: &str)
        ensures
            r@ == self.from_address_view(),
    {
        self.from_address.as_str()
    }

    /// Whether the configured sender address can be used in a header.
    pub fn has_valid_from_address(&self) -> (r: bool)
        ensures
            r == crate::address::valid_identity(self.from_address_view()),
    {
        EmailChannel::validate_email_identity(self.from_address.as_str())
    }

    /// The health signal: the sender address is usable and both the mailbox
    /// and the outgoing server answered.
    pub fn health_verdict(&self, imap_ok: bool, smtp_ok: bool) -> (r: bool)
        ensures
            r == (crate::address::valid_identity(self.from_address_view()) && imap_ok && smtp_ok),
    {
        self.has_valid_from_address() && imap_ok && smtp_ok
    }

    pub fn imap_host(&self) -> (r: &str)
        ensures
            r@ == self.imap_host_view(),
    {
        self.imap_host.as_str()
    }

    pub fn imap_port(&self) -> (r: u16)
        ensures
            r == self.imap_port_view(),
    {
        self.imap_port
    }

    pub fn imap_login(&self) -> (r: &str)
        ensures
            r@ == self.imap_login_view(),
    {
        self.imap_login.as_str()
    }

    pub fn imap_password(&self) -> (r: &str)
        ensures
            r@ == self.imap_password_view(),
    {
        self.imap_password.as_str()
    }

    pub fn imap_starttls(&self) -> (r: bool)
        ensures
            r == self.imap_starttls_view(),
    {
        self.imap_starttls
    }

    pub fn smtp_host(&self) -> (r: &str)
        ensures
            r@ == self.smtp_host_view(),
    {
        self.smtp_host.as_str()
    }

    pub fn smtp_port(&self) -> (r: u16)
        ensures
            r == self.smtp_port_view(),
    {
        self.smtp_port
    }

    pub fn smtp_login(&self) -> (r: &str)
        ensures
            r@ == self.smtp_login_view(),
    {
        self.smtp_login.as_str()
    }

    pub fn smtp_password(&self) -> (r: &str)
        ensures
            r@ == self.smtp_password_view(),
    {
        self.smtp_password.as_str()
    }

    pub fn smtp_starttls(&self) -> (r: bool)
        ensures
            r == self.smtp_starttls_view(),
    {
        self.smtp_starttls
    }

    pub fn inbox_folder(&self) -> (r: &str)
        ensures
            r@ == self.inbox_folder_view(),
    {
        self.inbox_folder.as_str()
    }

    /// Seconds to wait between two polls: the configured interval, but never
    /// less than the floor.
    pub fn poll_every_secs(&self) -> (r: u64)
        ensures
            r == if self.poll_interval() < MIN_POLL_INTERVAL_SECS {
                MIN_POLL_INTERVAL_SECS
            } else {
                self.poll_interval()
            },
    {
        if self.poll_interval_secs < MIN_POLL_INTERVAL_SECS {
            MIN_POLL_INTERVAL_SECS
        } else {
            self.poll_interval_secs
        }
    }

    /// The subject line of a reply to a message whose subject, trimmed, is `t`.
    pub fn reply_subject_trimmed(t: &str) -> (r: String)
        ensures
            r@ == subject_of_trimmed(t@),
    {
        proof {
            reveal_strlit("ZeroClaw reply");
            reveal_strlit("Re: ");
        }
        if t.unicode_len() == 0 {
            String::from_str("ZeroClaw reply")
        } else if t.unicode_len() >= 3 && ascii_lower_char(t.get_char(0)) == 'r'
            && ascii_lower_char(t.get_char(1)) == 'e' && t.get_char(2) == ':' {
            String::from_str(t)
        } else {
            let mut out = String::from_str("Re: ");
            out.append(t);
            out
        }
    }

    /// The subject line of a reply.
    pub fn reply_subject(subject: Option<&str>) -> (r: String)
        ensures
            r@ == reply_subject_of(opt_str_view(subject)),
    {
        proof {
            reveal_strlit("ZeroClaw reply");
            reveal_strlit("Re: ");
        }
        match subject {
            None => String::from_str("ZeroClaw reply"),
            Some(s) => EmailChannel::reply_subject_trimmed(trim(s)),
        }
    }
}

} // verus!

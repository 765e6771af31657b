//! How addresses, subjects, senders, flags and attachments of mail read.

use vstd::prelude::*;
use crate::mail_model::{MailAddress, MailAttachment, MailDraft, MailIdentity, MailMessageSummary};
use crate::text::{
    ascii_lower, blank, chars_of, lower_char, concat2, concat3, eq_ignore_ascii_case, eq_ignore_case, is_blank, join,
    join_strings, owned, string_of, trim, trim_chars, trim_str, views,
};

verus! {

broadcast use vstd::string::group_string_axioms;

/// How an address reads: `Name <email>` when it has a non-blank display name
/// that is not just the email again, else the trimmed email.
pub open spec fn address_text(a: MailAddress) -> Seq<char> {
    let email = trim(a.address@);
    match a.name {
        Some(n) => if trim(n@).len() > 0 && !eq_ignore_case(trim(n@), email) {
            trim(n@) + " <"@ + email + ">"@
        } else {
            email
        },
        None => email,
    }
}

/// How an address reads in a header or a compose field.
pub fn format_mail_address(address: &MailAddress) -> (r: String)
    ensures
        r@ == address_text(*address),
{
    let email = trim_str(address.address.as_str());
    match &address.name {
        Some(n) => {
            let name = trim_str(n.as_str());
            if !name.as_str().is_empty() && !eq_ignore_ascii_case(name.as_str(), email.as_str()) {
                let head = concat3(name.as_str(), " <", email.as_str());
                concat2(head.as_str(), ">")
            } else {
                email
            }
        },
        None => email,
    }
}

/// The readable forms of addresses.
pub open spec fn address_texts_of(list: Seq<MailAddress>) -> Seq<Seq<char>> {
    list.map_values(|a: MailAddress| address_text(a))
}

/// The readable forms of addresses, those that are blank left out.
pub open spec fn nonblank_address_texts(list: Seq<MailAddress>) -> Seq<Seq<char>>
    decreases list.len(),
{
    if list.len() == 0 {
        Seq::empty()
    } else {
        let r = nonblank_address_texts(list.drop_last());
        if blank(address_text(list.last())) {
            r
        } else {
            r.push(address_text(list.last()))
        }
    }
}

/// A compose field listing `addresses`, separated by `", "`.
pub fn compose_address_line(addresses: &Vec<MailAddress>) -> (r: String)
    ensures
        r@ == join(nonblank_address_texts(addresses@), ", "@),
{
    let mut parts: Vec<String> = Vec::new();
    let mut i: usize = 0;
    while i < addresses.len()
        invariant
            i <= addresses.len(),
            views(parts@) == nonblank_address_texts(addresses@.take(i as int)),
        decreases addresses.len() - i,
    {
        let t = format_mail_address(&addresses[i]);
        assert(addresses@.take(i + 1).drop_last() =~= addresses@.take(i as int));
        if !is_blank(t.as_str()) {
            let ghost before = views(parts@);
            parts.push(t);
            assert(views(parts@) =~= before.push(t@));
        }
        i = i + 1;
    }
    assert(addresses@.take(addresses.len() as int) =~= addresses@);
    join_strings(&parts, ", ")
}

fn format_all(list: &Vec<MailAddress>) -> (r: Vec<String>)
    ensures
        views(r@) == address_texts_of(list@),
{
    let mut parts: Vec<String> = Vec::new();
    let mut i: usize = 0;
    while i < list.len()
        invariant
            i <= list.len(),
            views(parts@) == address_texts_of(list@.take(i as int)),
        decreases list.len() - i,
    {
        let t = format_mail_address(&list[i]);
        let ghost before = views(parts@);
        parts.push(t);
        i = i + 1;
        assert(views(parts@) =~= before.push(t@));
        assert(address_texts_of(list@.take(i as int)) =~= address_texts_of(list@.take(i - 1)).push(
            address_text(list@[i - 1]),
        ));
    }
    assert(list@.take(list.len() as int) =~= list@);
    parts
}

/// Who sent a message: its first sender, or `"Unknown sender"`.
pub open spec fn sender_text(message: MailMessageSummary) -> Seq<char> {
    if message.from@.len() > 0 {
        address_text(message.from@[0])
    } else {
        "Unknown sender"@
    }
}

/// Who sent a message.
pub fn message_sender(message: &MailMessageSummary) -> (r: String)
    ensures
        r@ == sender_text(*message),
{
    if message.from.len() > 0 {
        format_mail_address(&message.from[0])
    } else {
        owned("Unknown sender")
    }
}

/// Whom a message went to: its "To" addresses, or `"Undisclosed recipients"`.
pub open spec fn recipients_text(message: MailMessageSummary) -> Seq<char> {
    if message.to@.len() == 0 {
        "Undisclosed recipients"@
    } else {
        join(address_texts_of(message.to@), ", "@)
    }
}

/// Whom a message went to.
pub fn message_recipients(message: &MailMessageSummary) -> (r: String)
    ensures
        r@ == recipients_text(*message),
{
    if message.to.len() == 0 {
        return owned("Undisclosed recipients");
    }
    let parts = format_all(&message.to);
    join_strings(&parts, ", ")
}

/// The subject of a message, or `"(no subject)"` when it has none or a blank one.
pub open spec fn subject_text(message: MailMessageSummary) -> Seq<char> {
    match message.subject {
        Some(s) => if blank(s@) {
            "(no subject)"@
        } else {
            s@
        },
        None => "(no subject)"@,
    }
}

/// The subject of a message as the list shows it.
pub fn message_subject(message: &MailMessageSummary) -> (r: String)
    ensures
        r@ == subject_text(*message),
{
    match &message.subject {
        Some(s) => if is_blank(s.as_str()) {
            owned("(no subject)")
        } else {
            s.clone()
        },
        None => owned("(no subject)"),
    }
}

/// The subject of a draft, or `"(no subject)"` when blank.
pub open spec fn draft_label_text(draft: MailDraft) -> Seq<char> {
    if blank(draft.subject@) {
        "(no subject)"@
    } else {
        draft.subject@
    }
}

/// The label of a draft in the drafts list.
pub fn draft_subject_label(draft: &MailDraft) -> (r: String)
    ensures
        r@ == draft_label_text(*draft),
{
    if is_blank(draft.subject.as_str()) {
        owned("(no subject)")
    } else {
        draft.subject.clone()
    }
}

/// How an identity reads in the sender picker: `Name <email>`.
pub fn mail_identity_label(identity: &MailIdentity) -> (r: String)
    ensures
        r@ == identity.display_name@ + " <"@ + identity.email_address@ + ">"@,
{
    let head = concat3(identity.display_name.as_str(), " <", identity.email_address.as_str());
    concat2(head.as_str(), ">")
}

/// The name of an attachment, or `"Attachment"` when it has none or a blank one.
pub open spec fn attachment_name_text(attachment: MailAttachment) -> Seq<char> {
    match attachment.filename {
        Some(f) => if blank(f@) {
            "Attachment"@
        } else {
            f@
        },
        None => "Attachment"@,
    }
}

/// The name of an attachment.
pub fn mail_attachment_name(attachment: &MailAttachment) -> (r: String)
    ensures
        r@ == attachment_name_text(*attachment),
{
    match &attachment.filename {
        Some(f) => if is_blank(f.as_str()) {
            owned("Attachment")
        } else {
            f.clone()
        },
        None => owned("Attachment"),
    }
}

/// The details line of an attachment: its formatted size and its content
/// type, if not blank, separated by `" | "`; `"download"` when there are none.
pub open spec fn attachment_meta_text(attachment: MailAttachment, size_label: Option<Seq<char>>) -> Seq<char> {
    let with_size: Seq<Seq<char>> = match size_label {
        Some(l) => seq![l],
        None => Seq::empty(),
    };
    let parts = match attachment.content_type {
        Some(t) => if blank(t@) {
            with_size
        } else {
            with_size.push(t@)
        },
        None => with_size,
    };
    if parts.len() == 0 {
        "download"@
    } else {
        join(parts, " | "@)
    }
}

/// The details line of an attachment. `size_label` is the attachment's size
/// as the byte formatter of the server's shared crate writes it, present
/// exactly when the attachment has a size.
pub fn mail_attachment_meta(attachment: &MailAttachment, size_label: Option<String>) -> (r: String)
    ensures
        r@ == attachment_meta_text(*attachment, crate::mail_model::opt_view(size_label)),
{
    let mut parts: Vec<String> = Vec::new();
    let ghost label = crate::mail_model::opt_view(size_label);
    if let Some(l) = size_label {
        parts.push(l);
        assert(views(parts@) =~= seq![l@]);
    } else {
        assert(views(parts@) =~= Seq::<Seq<char>>::empty());
    }
    let ghost with_size = views(parts@);
    if let Some(t) = &attachment.content_type {
        if !is_blank(t.as_str()) {
            parts.push(t.clone());
            assert(views(parts@) =~= with_size.push(t@));
        }
    }
    if parts.len() == 0 {
        owned("download")
    } else {
        join_strings(&parts, " | ")
    }
}

/// `s` without any leading backslashes, as `trim_start_matches('\\')` gives it.
pub open spec fn strip_backslashes(s: Seq<char>) -> Seq<char>
    decreases s.len(),
{
    if s.len() > 0 && s[0] == '\\' {
        strip_backslashes(s.drop_first())
    } else {
        s
    }
}

fn strip_backslash_chars(v: &Vec<char>) -> (r: Vec<char>)
    ensures
        r@ == strip_backslashes(v@),
{
    let mut i: usize = 0;
    assert(v@.skip(0) =~= v@);
    while i < v.len() && v[i] == '\\'
        invariant
            i <= v.len(),
            strip_backslashes(v@) == strip_backslashes(v@.skip(i as int)),
        decreases v.len() - i,
    {
        assert(v@.skip(i as int).drop_first() =~= v@.skip(i + 1));
        i = i + 1;
    }
    let mut out: Vec<char> = Vec::new();
    let mut k: usize = i;
    while k < v.len()
        invariant
            i <= k <= v.len(),
            out@ == v@.subrange(i as int, k as int),
        decreases v.len() - k,
    {
        out.push(v[k]);
        k = k + 1;
        assert(out@ =~= v@.subrange(i as int, k as int));
    }
    assert(out@ =~= v@.skip(i as int));
    out
}

/// Whether a message carries `flag`, compared without leading backslashes
/// and up to ASCII case, its own flags trimmed first.
pub open spec fn has_flag(message: MailMessageSummary, flag: Seq<char>) -> bool {
    exists|i: int|
        0 <= i < message.flags@.len() && eq_ignore_case(
            strip_backslashes(trim((#[trigger] message.flags@[i])@)),
            strip_backslashes(flag),
        )
}

/// Whether a message carries a flag such as `\\Seen` or `\\Flagged`.
pub fn message_has_flag(message: &MailMessageSummary, flag: &str) -> (r: bool)
    ensures
        r == has_flag(*message, flag@),
{
    let want = strip_backslash_chars(&chars_of(flag));
    let want_s = string_of(&want);
    let mut i: usize = 0;
    while i < message.flags.len()
        invariant
            i <= message.flags.len(),
            want_s@ == strip_backslashes(flag@),
            forall|j: int|
                0 <= j < i ==> !eq_ignore_case(
                    strip_backslashes(trim((#[trigger] message.flags@[j])@)),
                    strip_backslashes(flag@),
                ),
        decreases message.flags.len() - i,
    {
        let have = strip_backslash_chars(&trim_chars(&chars_of(message.flags[i].as_str())));
        let have_s = string_of(&have);
        if eq_ignore_ascii_case(have_s.as_str(), want_s.as_str()) {
            return true;
        }
        i = i + 1;
    }
    false
}

/// The trimmed value, if it is not blank.
pub fn nonempty_string(value: String) -> (r: Option<String>)
    ensures
        match r {
            Some(t) => !blank(value@) && t@ == trim(value@),
            None => blank(value@),
        },
{
    let t = trim_str(value.as_str());
    if t.as_str().is_empty() {
        None
    } else {
        Some(t)
    }
}

/// Leading backslashes of the flag asked for do not matter: a message has
/// flag `\f` exactly when it has flag `f`; and a message has each of its
/// own flags, asked for as it is written there (a flag such as `\Seen`
/// written without surrounding white space).
pub proof fn lemma_flag_backslashes(message: MailMessageSummary, flag: Seq<char>, i: int)
    ensures
        has_flag(message, seq!['\\'] + flag) == has_flag(message, flag),
        0 <= i < message.flags@.len() && trim(message.flags@[i]@) == message.flags@[i]@ ==> has_flag(
            message,
            message.flags@[i]@,
        ),
{
    let s = seq!['\\'] + flag;
    assert(s.drop_first() =~= flag);
    assert(strip_backslashes(s) == strip_backslashes(flag));
    if 0 <= i < message.flags@.len() && trim(message.flags@[i]@) == message.flags@[i]@ {
        let f = message.flags@[i]@;
        assert(eq_ignore_case(strip_backslashes(trim(message.flags@[i]@)), strip_backslashes(f)));
    }
}

proof fn lemma_lower_char_shape(c: char)
    ensures
        lower_char(lower_char(c)) == lower_char(c),
        (lower_char(c) == '\\') == (c == '\\'),
{
}

proof fn lemma_ascii_lower_twice(s: Seq<char>)
    ensures
        ascii_lower(ascii_lower(s)) == ascii_lower(s),
{
    assert forall|k: int| 0 <= k < s.len() implies #[trigger] ascii_lower(ascii_lower(s))[k] == ascii_lower(s)[k] by {
        lemma_lower_char_shape(s[k]);
    }
    assert(ascii_lower(ascii_lower(s)) =~= ascii_lower(s));
}

proof fn lemma_strip_lower(s: Seq<char>)
    ensures
        strip_backslashes(ascii_lower(s)) == ascii_lower(strip_backslashes(s)),
    decreases s.len(),
{
    if s.len() > 0 {
        lemma_lower_char_shape(s[0]);
        assert(ascii_lower(s)[0] == lower_char(s[0]));
        if s[0] == '\\' {
            assert(ascii_lower(s).drop_first() =~= ascii_lower(s.drop_first()));
            lemma_strip_lower(s.drop_first());
        }
    }
}

/// The case of ASCII letters in the flag asked for does not matter: a
/// message has flag `f` exactly when it has `f` in lower case.
pub proof fn lemma_flag_case(message: MailMessageSummary, flag: Seq<char>)
    ensures
        has_flag(message, ascii_lower(flag)) == has_flag(message, flag),
{
    lemma_strip_lower(flag);
    lemma_ascii_lower_twice(strip_backslashes(flag));
}

} // verus!

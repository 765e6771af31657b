//! Addresses, recipients, subjects and references of replies and forwards.

use vstd::prelude::*;
use crate::mail_model::{
    MailAccount, MailAddress, MailComposeMode, MailIdentity, MailMessageDetail, MailMessageSummary,
};
use crate::mail_body::{
    forward_body, forward_body_html, forward_body_html_text, forward_body_text, reply_body, reply_body_html,
    reply_body_html_text, reply_body_text,
};
use crate::mail_text::{compose_address_line, message_subject, nonblank_address_texts, subject_text};
use crate::text::{
    ascii_lower, blank, chars_of, concat2, eq_ignore_case, is_ws, join, lemma_trim_ends, lemma_trim_unchanged,
    lower_chars, string_of, trim, trim_chars, trim_lower, trim_str,
};

verus! {

/// The key by which two addresses are the same: trimmed, ASCII lower case.
pub open spec fn key_of(address: Seq<char>) -> Seq<char> {
    ascii_lower(trim(address))
}

/// The comparison key of an address.
pub fn address_key(address: &str) -> (r: String)
    ensures
        r@ == key_of(address@),
{
    trim_lower(address)
}

/// `keys` with the key of `address` added unless it is empty or present.
pub open spec fn add_key(keys: Seq<Seq<char>>, address: Seq<char>) -> Seq<Seq<char>> {
    let k = key_of(address);
    if k.len() > 0 && !keys.contains(k) {
        keys.push(k)
    } else {
        keys
    }
}

fn contains_string(v: &Vec<String>, s: &String) -> (r: bool)
    ensures
        r == crate::text::views(v@).contains(s@),
{
    let mut i: usize = 0;
    while i < v.len()
        invariant
            i <= v.len(),
            forall|j: int| 0 <= j < i ==> v@[j]@ != s@,
        decreases v.len() - i,
    {
        if v[i].eq(s) {
            assert(crate::text::views(v@)[i as int] == s@);
            return true;
        }
        i = i + 1;
    }
    assert forall|j: int| 0 <= j < v.len() implies crate::text::views(v@)[j] != s@ by {}
    false
}

/// Adds the key of `address` to `out` unless it is empty or already there.
pub fn push_unique_address_key(out: &mut Vec<String>, address: &str)
    ensures
        crate::text::views(final(out)@) == add_key(crate::text::views(old(out)@), address@),
{
    let key = address_key(address);
    if !key.as_str().is_empty() && !contains_string(out, &key) {
        out.push(key);
        assert(crate::text::views(out@) =~= crate::text::views(old(out)@).push(key@));
    }
}

/// The keys of the given addresses, each once, in order of first appearance,
/// skipping empty keys.
pub open spec fn unique_keys(keys: Seq<Seq<char>>, addresses: Seq<Seq<char>>) -> Seq<Seq<char>>
    decreases addresses.len(),
{
    if addresses.len() == 0 {
        keys
    } else {
        add_key(unique_keys(keys, addresses.drop_last()), addresses.last())
    }
}

/// The email addresses of identities.
pub open spec fn identity_addresses(identities: Seq<MailIdentity>) -> Seq<Seq<char>> {
    identities.map_values(|i: MailIdentity| i.email_address@)
}

/// The account's own addresses: its address, then its identities' addresses.
pub open spec fn own_addresses(account: Option<MailAccount>, identities: Seq<MailIdentity>) -> Seq<Seq<char>> {
    let start = match account {
        Some(a) => add_key(Seq::empty(), a.email_address@),
        None => Seq::empty(),
    };
    unique_keys(start, identity_addresses(identities))
}

/// The keys of the account's own addresses, which a reply-all leaves out.
pub fn mail_own_addresses(account: Option<&MailAccount>, identities: &Vec<MailIdentity>) -> (r: Vec<String>)
    ensures
        crate::text::views(r@) == own_addresses(
            match account {
                Some(a) => Some(*a),
                None => None,
            },
            identities@,
        ),
{
    let mut out: Vec<String> = Vec::new();
    if let Some(a) = account {
        push_unique_address_key(&mut out, a.email_address.as_str());
        assert(crate::text::views(Seq::<String>::empty()) =~= Seq::<Seq<char>>::empty());
    } else {
        assert(crate::text::views(out@) =~= Seq::<Seq<char>>::empty());
    }
    let ghost start = crate::text::views(out@);
    let mut i: usize = 0;
    while i < identities.len()
        invariant
            i <= identities.len(),
            crate::text::views(out@) == unique_keys(start, identity_addresses(identities@).take(i as int)),
        decreases identities.len() - i,
    {
        push_unique_address_key(&mut out, identities[i].email_address.as_str());
        i = i + 1;
        assert(identity_addresses(identities@).take(i as int).drop_last() =~= identity_addresses(
            identities@,
        ).take(i - 1));
    }
    assert(identity_addresses(identities@).take(identities.len() as int) =~= identity_addresses(identities@));
    out
}

/// Whether some address of `list` has key `k`.
pub open spec fn has_key(list: Seq<MailAddress>, k: Seq<char>) -> bool {
    exists|i: int| 0 <= i < list.len() && key_of((#[trigger] list[i]).address@) == k
}

/// `target` with `a` added unless its key is empty, is one of `own`, or is
/// already in `target` or `other`.
pub open spec fn add_recipient(
    target: Seq<MailAddress>,
    other: Seq<MailAddress>,
    own: Seq<Seq<char>>,
    a: MailAddress,
) -> Seq<MailAddress> {
    let k = key_of(a.address@);
    if k.len() == 0 || own.contains(k) || has_key(target, k) || has_key(other, k) {
        target
    } else {
        target.push(a)
    }
}

/// `target` with each address of `list` added in turn.
pub open spec fn add_recipients(
    target: Seq<MailAddress>,
    other: Seq<MailAddress>,
    own: Seq<Seq<char>>,
    list: Seq<MailAddress>,
) -> Seq<MailAddress>
    decreases list.len(),
{
    if list.len() == 0 {
        target
    } else {
        add_recipient(add_recipients(target, other, own, list.drop_last()), other, own, list.last())
    }
}

fn has_address_key(list: &Vec<MailAddress>, key: &String) -> (r: bool)
    ensures
        r == has_key(list@, key@),
{
    let mut i: usize = 0;
    while i < list.len()
        invariant
            i <= list.len(),
            forall|j: int| 0 <= j < i ==> key_of((#[trigger] list@[j]).address@) != key@,
        decreases list.len() - i,
    {
        let k = address_key(list[i].address.as_str());
        if k.eq(key) {
            return true;
        }
        i = i + 1;
    }
    false
}

/// Adds `address` to `target` unless it is empty, one of the account's own
/// addresses, or already among `target` or `other`.
pub fn push_reply_recipient(
    target: &mut Vec<MailAddress>,
    other: &Vec<MailAddress>,
    own_addresses: &Vec<String>,
    address: &MailAddress,
)
    ensures
        final(target)@ == add_recipient(old(target)@, other@, crate::text::views(own_addresses@), *address),
{
    let key = address_key(address.address.as_str());
    if key.as_str().is_empty() || contains_string(own_addresses, &key) || has_address_key(target, &key)
        || has_address_key(other, &key) {
        return;
    }
    target.push(address.duplicate());
}

fn push_reply_recipients(
    target: &mut Vec<MailAddress>,
    other: &Vec<MailAddress>,
    own_addresses: &Vec<String>,
    list: &Vec<MailAddress>,
)
    ensures
        final(target)@ == add_recipients(old(target)@, other@, crate::text::views(own_addresses@), list@),
{
    let mut i: usize = 0;
    while i < list.len()
        invariant
            i <= list.len(),
            target@ == add_recipients(old(target)@, other@, crate::text::views(own_addresses@), list@.take(i as int)),
        decreases list.len() - i,
    {
        push_reply_recipient(target, other, own_addresses, &list[i]);
        i = i + 1;
        assert(list@.take(i as int).drop_last() =~= list@.take(i - 1));
    }
    assert(list@.take(list.len() as int) =~= list@);
}

/// The recipients of a reply-all: the senders go to "To", or, when no sender
/// is left, the message's "To" does; the rest of the message's "To" and its
/// "Cc" go to "Cc"; the account's own addresses and repeats are left out.
pub open spec fn reply_all(message: MailMessageSummary, own: Seq<Seq<char>>) -> (Seq<MailAddress>, Seq<MailAddress>) {
    let to1 = add_recipients(Seq::empty(), Seq::empty(), own, message.from@);
    let (to2, cc1) = if to1.len() == 0 {
        (add_recipients(to1, Seq::empty(), own, message.to@), Seq::<MailAddress>::empty())
    } else {
        (to1, add_recipients(Seq::empty(), to1, own, message.to@))
    };
    (to2, add_recipients(cc1, to2, own, message.cc@))
}

/// The "To" and "Cc" lists of a reply-all to `message`.
pub fn reply_all_recipients(message: &MailMessageSummary, own_addresses: &Vec<String>) -> (r: (
    Vec<MailAddress>,
    Vec<MailAddress>,
))
    ensures
        (r.0@, r.1@) == reply_all(*message, crate::text::views(own_addresses@)),
{
    let mut to: Vec<MailAddress> = Vec::new();
    let mut cc: Vec<MailAddress> = Vec::new();
    push_reply_recipients(&mut to, &cc, own_addresses, &message.from);
    if to.len() == 0 {
        push_reply_recipients(&mut to, &cc, own_addresses, &message.to);
    } else {
        push_reply_recipients(&mut cc, &to, own_addresses, &message.to);
    }
    push_reply_recipients(&mut cc, &to, own_addresses, &message.cc);
    (to, cc)
}

/// Whether `t` starts with `prefix` up to ASCII case.
pub open spec fn starts_ignore_case(t: Seq<char>, prefix: Seq<char>) -> bool {
    t.len() >= prefix.len() && eq_ignore_case(t.take(prefix.len() as int), prefix)
}

fn starts_with_ignore_case(t: &Vec<char>, prefix: &str) -> (r: bool)
    ensures
        r == starts_ignore_case(t@, prefix@),
{
    let p = lower_chars(&chars_of(prefix));
    if t.len() < p.len() {
        return false;
    }
    let mut head: Vec<char> = Vec::new();
    let mut i: usize = 0;
    while i < p.len()
        invariant
            i <= p.len(),
            p.len() <= t.len(),
            p@.len() == prefix@.len(),
            head@ == t@.take(i as int),
        decreases p.len() - i,
    {
        head.push(t[i]);
        i = i + 1;
        assert(head@ =~= t@.take(i as int));
    }
    let lh = lower_chars(&head);
    crate::text::chars_eq(&lh, &p)
}

/// The subject of a reply: the trimmed subject, with `"Re: "` in front unless
/// it already starts with `re:` in any case.
pub open spec fn reply_subject_text(subject: Seq<char>) -> Seq<char> {
    let t = trim(subject);
    if starts_ignore_case(t, "re:"@) {
        t
    } else {
        "Re: "@ + t
    }
}

/// The subject of a reply to a message with subject `subject`.
pub fn reply_subject(subject: &str) -> (r: String)
    ensures
        r@ == reply_subject_text(subject@),
{
    let t = trim_chars(&chars_of(subject));
    let ts = string_of(&t);
    if starts_with_ignore_case(&t, "re:") {
        ts
    } else {
        concat2("Re: ", ts.as_str())
    }
}

/// The subject of a forward: the trimmed subject, with `"Fwd: "` in front
/// unless it already starts with `fwd:` or `fw:` in any case.
pub open spec fn forward_subject_text(subject: Seq<char>) -> Seq<char> {
    let t = trim(subject);
    if starts_ignore_case(t, "fwd:"@) || starts_ignore_case(t, "fw:"@) {
        t
    } else {
        "Fwd: "@ + t
    }
}

/// The subject of a forward of a message with subject `subject`.
pub fn forward_subject(subject: &str) -> (r: String)
    ensures
        r@ == forward_subject_text(subject@),
{
    let t = trim_chars(&chars_of(subject));
    let ts = string_of(&t);
    if starts_with_ignore_case(&t, "fwd:") || starts_with_ignore_case(&t, "fw:") {
        ts
    } else {
        concat2("Fwd: ", ts.as_str())
    }
}

/// The trimmed value of an optional header, if it is not blank.
pub open spec fn header_value(v: Option<String>) -> Option<Seq<char>> {
    match v {
        Some(s) => if trim(s@).len() > 0 {
            Some(trim(s@))
        } else {
            None
        },
        None => None,
    }
}

/// The `References` of a reply: the message's references, or else its
/// `In-Reply-To`; then its `Message-ID` unless already listed.
pub open spec fn reply_references_of(message: MailMessageSummary) -> Seq<Seq<char>> {
    let base = crate::text::views(message.references@);
    let with_parent = if base.len() == 0 {
        match header_value(message.in_reply_to) {
            Some(v) => base.push(v),
            None => base,
        }
    } else {
        base
    };
    match header_value(message.message_id) {
        Some(m) => if with_parent.contains(m) {
            with_parent
        } else {
            with_parent.push(m)
        },
        None => with_parent,
    }
}

fn header_of(v: &Option<String>) -> (r: Option<String>)
    ensures
        crate::mail_model::opt_view(r) == header_value(*v),
{
    match v {
        Some(s) => {
            let t = trim_str(s.as_str());
            if t.as_str().is_empty() {
                None
            } else {
                Some(t)
            }
        },
        None => None,
    }
}

fn clone_strings(v: &Vec<String>) -> (r: Vec<String>)
    ensures
        r@ == v@,
{
    let mut out: Vec<String> = Vec::new();
    let mut i: usize = 0;
    while i < v.len()
        invariant
            i <= v.len(),
            out@ == v@.take(i as int),
        decreases v.len() - i,
    {
        out.push(v[i].clone());
        i = i + 1;
        assert(out@ =~= v@.take(i as int));
    }
    assert(v@.take(v.len() as int) =~= v@);
    out
}

/// The `References` header of a reply to `message`.
pub fn reply_references(message: &MailMessageSummary) -> (r: Vec<String>)
    ensures
        crate::text::views(r@) == reply_references_of(*message),
{
    let mut references = clone_strings(&message.references);
    let ghost base = crate::text::views(references@);
    if references.len() == 0 {
        if let Some(v) = header_of(&message.in_reply_to) {
            references.push(v);
            assert(crate::text::views(references@) =~= base.push(v@));
        }
    }
    if let Some(m) = header_of(&message.message_id) {
        if !contains_string(&references, &m) {
            let ghost before = crate::text::views(references@);
            references.push(m);
            assert(crate::text::views(references@) =~= before.push(m@));
        }
    }
    references
}

/// Whether `c` separates addresses in a compose field.
pub open spec fn is_address_separator(c: char) -> bool {
    c == ',' || c == ';' || c == '\n'
}

/// The pieces of `s` between separators, as `str::split` gives them: one more
/// piece than there are separators.
pub open spec fn address_pieces(s: Seq<char>) -> Seq<Seq<char>>
    decreases s.len(),
{
    if s.len() == 0 {
        seq![Seq::empty()]
    } else {
        let p = address_pieces(s.drop_last());
        if is_address_separator(s.last()) {
            p.push(Seq::empty())
        } else {
            p.update(p.len() - 1, p.last().push(s.last()))
        }
    }
}

proof fn lemma_address_pieces_nonempty(s: Seq<char>)
    ensures
        address_pieces(s).len() > 0,
    decreases s.len(),
{
    if s.len() > 0 {
        lemma_address_pieces_nonempty(s.drop_last());
    }
}

/// The trimmed pieces that are not blank.
pub open spec fn kept_pieces(pieces: Seq<Seq<char>>) -> Seq<Seq<char>>
    decreases pieces.len(),
{
    if pieces.len() == 0 {
        Seq::empty()
    } else {
        let r = kept_pieces(pieces.drop_last());
        if trim(pieces.last()).len() > 0 {
            r.push(trim(pieces.last()))
        } else {
            r
        }
    }
}

/// The addresses typed into a compose field: split at commas, semicolons and
/// newlines, trimmed, blanks dropped.
pub open spec fn compose_address_texts(input: Seq<char>) -> Seq<Seq<char>> {
    kept_pieces(address_pieces(input))
}

/// The addresses of a message.
pub open spec fn address_texts(list: Seq<MailAddress>) -> Seq<Seq<char>> {
    list.map_values(|a: MailAddress| a.address@)
}

/// Reads the addresses typed into a compose field; none has a display name.
pub fn parse_compose_addresses(input: &str) -> (r: Vec<MailAddress>)
    ensures
        address_texts(r@) == compose_address_texts(input@),
        forall|i: int| 0 <= i < r@.len() ==> (#[trigger] r@[i]).name.is_none(),
{
    let v = chars_of(input);
    let mut out: Vec<MailAddress> = Vec::new();
    let mut cur: Vec<char> = Vec::new();
    let ghost mut done: Seq<Seq<char>> = Seq::empty();
    let mut i: usize = 0;
    assert(v@.take(0) =~= Seq::<char>::empty());
    assert(cur@ =~= Seq::<char>::empty());
    while i < v.len()
        invariant
            i <= v.len(),
            v@ == input@,
            address_pieces(v@.take(i as int)) == done.push(cur@),
            address_texts(out@) == kept_pieces(done),
            forall|j: int| 0 <= j < out@.len() ==> (#[trigger] out@[j]).name.is_none(),
        decreases v.len() - i,
    {
        let c = v[i];
        assert(v@.take(i + 1).drop_last() =~= v@.take(i as int));
        assert(v@.take(i + 1).last() == c);
        if c == ',' || c == ';' || c == '\n' {
            let t = trim_chars(&cur);
            let ghost old_done = done;
            let ghost cur_before = cur@;
            if t.len() > 0 {
                let a = MailAddress { name: None, address: string_of(&t) };
                let ghost before = out@;
                out.push(a);
                assert(address_texts(out@) =~= address_texts(before).push(t@));
            }
            proof {
                done = old_done.push(cur@);
                assert(done.drop_last() =~= old_done);
            }
            cur = Vec::new();
            assert(old_done.push(cur_before).push(cur@) =~= done.push(cur@));
        } else {
            let ghost before = cur@;
            cur.push(c);
            assert(done.push(before).update(done.len() as int, before.push(c)) =~= done.push(cur@));
        }
        i = i + 1;
    }
    assert(v@.take(v.len() as int) =~= v@);
    assert(done.push(cur@).drop_last() =~= done);
    let t = trim_chars(&cur);
    if t.len() > 0 {
        let a = MailAddress { name: None, address: string_of(&t) };
        let ghost before = out@;
        out.push(a);
        assert(address_texts(out@) =~= address_texts(before).push(t@));
    }
    out
}

proof fn lemma_prefixed_trim(prefix: Seq<char>, t: Seq<char>)
    requires
        prefix.len() > 0,
        !is_ws(prefix[0]),
        t.len() > 0,
        !is_ws(t.last()),
    ensures
        trim(prefix + t) == prefix + t,
{
    let r = prefix + t;
    assert(r[0] == prefix[0]);
    assert(r.last() == t.last());
    lemma_trim_unchanged(r);
}

/// Replying to a reply adds no second prefix: the reply subject of a reply
/// subject is that subject again. A blank subject is left out: its reply
/// subject is `"Re: "`, whose own reply subject is trimmed to `"Re:"`.
pub proof fn lemma_reply_subject_idempotent(subject: Seq<char>)
    requires
        !blank(subject),
    ensures
        reply_subject_text(reply_subject_text(subject)) == reply_subject_text(subject),
{
    let t = trim(subject);
    lemma_trim_ends(subject);
    lemma_trim_unchanged(t);
    if !starts_ignore_case(t, "re:"@) {
        reveal_strlit("Re: ");
        reveal_strlit("re:");
        let r = "Re: "@ + t;
        lemma_prefixed_trim("Re: "@, t);
        assert(r.take(3) =~= "Re:"@) by {
            reveal_strlit("Re:");
        }
        reveal_strlit("Re:");
        assert(ascii_lower("Re:"@) =~= ascii_lower("re:"@));
    }
}

/// Forwarding a forward adds no second prefix: the forward subject of a
/// forward subject is that subject again. A blank subject is left out: its
/// forward subject is `"Fwd: "`, whose own forward subject is `"Fwd:"`.
pub proof fn lemma_forward_subject_idempotent(subject: Seq<char>)
    requires
        !blank(subject),
    ensures
        forward_subject_text(forward_subject_text(subject)) == forward_subject_text(subject),
{
    let t = trim(subject);
    lemma_trim_ends(subject);
    lemma_trim_unchanged(t);
    if !(starts_ignore_case(t, "fwd:"@) || starts_ignore_case(t, "fw:"@)) {
        reveal_strlit("Fwd: ");
        reveal_strlit("fwd:");
        reveal_strlit("Fwd:");
        let r = "Fwd: "@ + t;
        lemma_prefixed_trim("Fwd: "@, t);
        assert(r.take(4) =~= "Fwd:"@);
        assert(ascii_lower("Fwd:"@) =~= ascii_lower("fwd:"@));
    }
}

/// `list` holds no blank address, none of `own`, none whose key is in
/// `other`, and no key twice.
pub open spec fn recipients_clean(list: Seq<MailAddress>, other: Seq<MailAddress>, own: Seq<Seq<char>>) -> bool {
    &&& forall|i: int|
        0 <= i < list.len() ==> {
            let k = key_of((#[trigger] list[i]).address@);
            k.len() > 0 && !own.contains(k) && !has_key(other, k)
        }
    &&& forall|i: int, j: int|
        0 <= i < j < list.len() ==> key_of((#[trigger] list[i]).address@) != key_of(
            (#[trigger] list[j]).address@,
        )
}

proof fn lemma_add_recipient_clean(
    target: Seq<MailAddress>,
    other: Seq<MailAddress>,
    own: Seq<Seq<char>>,
    a: MailAddress,
)
    requires
        recipients_clean(target, other, own),
    ensures
        recipients_clean(add_recipient(target, other, own, a), other, own),
{
    let k = key_of(a.address@);
    if !(k.len() == 0 || own.contains(k) || has_key(target, k) || has_key(other, k)) {
        let r = target.push(a);
        assert forall|i: int| 0 <= i < r.len() implies {
            let ki = key_of((#[trigger] r[i]).address@);
            ki.len() > 0 && !own.contains(ki) && !has_key(other, ki)
        } by {
            if i < target.len() {
                assert(r[i] == target[i]);
            }
        }
        assert forall|i: int, j: int| 0 <= i < j < r.len() implies key_of((#[trigger] r[i]).address@)
            != key_of((#[trigger] r[j]).address@) by {
            assert(r[i] == target[i]);
            if j < target.len() {
                assert(r[j] == target[j]);
            } else {
                assert(r[j] == a);
                if key_of(target[i].address@) == k {
                    assert(has_key(target, k));
                }
            }
        }
    }
}

proof fn lemma_add_recipients_clean(
    target: Seq<MailAddress>,
    other: Seq<MailAddress>,
    own: Seq<Seq<char>>,
    list: Seq<MailAddress>,
)
    requires
        recipients_clean(target, other, own),
    ensures
        recipients_clean(add_recipients(target, other, own, list), other, own),
    decreases list.len(),
{
    if list.len() > 0 {
        lemma_add_recipients_clean(target, other, own, list.drop_last());
        lemma_add_recipient_clean(add_recipients(target, other, own, list.drop_last()), other, own, list.last());
    }
}

/// The recipients of a reply-all leave out the account's own addresses and
/// blank ones, and list no address twice: not within "To", not within "Cc",
/// and not in both.
pub proof fn lemma_reply_all_clean(message: MailMessageSummary, own: Seq<Seq<char>>)
    ensures
        recipients_clean(reply_all(message, own).0, Seq::empty(), own),
        recipients_clean(reply_all(message, own).1, reply_all(message, own).0, own),
{
    let e = Seq::<MailAddress>::empty();
    lemma_add_recipients_clean(e, e, own, message.from@);
    let to1 = add_recipients(e, e, own, message.from@);
    if to1.len() == 0 {
        lemma_add_recipients_clean(to1, e, own, message.to@);
        let to2 = add_recipients(to1, e, own, message.to@);
        assert(recipients_clean(e, to2, own));
        lemma_add_recipients_clean(e, to2, own, message.cc@);
    } else {
        assert(recipients_clean(e, to1, own));
        lemma_add_recipients_clean(e, to1, own, message.to@);
        let cc1 = add_recipients(e, to1, own, message.to@);
        lemma_add_recipients_clean(cc1, to1, own, message.cc@);
    }
}

proof fn lemma_unique_keys_law(keys: Seq<Seq<char>>, addresses: Seq<Seq<char>>)
    requires
        keys.no_duplicates(),
        forall|i: int| 0 <= i < keys.len() ==> (#[trigger] keys[i]).len() > 0,
    ensures
        unique_keys(keys, addresses).no_duplicates(),
        forall|i: int| 0 <= i < unique_keys(keys, addresses).len() ==> (#[trigger] unique_keys(keys, addresses)[i]).len() > 0,
        forall|k: Seq<char>| keys.contains(k) ==> unique_keys(keys, addresses).contains(k),
        forall|i: int| 0 <= i < addresses.len() && key_of(#[trigger] addresses[i]).len() > 0
            ==> unique_keys(keys, addresses).contains(key_of(addresses[i])),
    decreases addresses.len(),
{
    if addresses.len() > 0 {
        let t = addresses.drop_last();
        let prev = unique_keys(keys, t);
        lemma_unique_keys_law(keys, t);
        let k = key_of(addresses.last());
        let r = add_key(prev, addresses.last());
        if k.len() > 0 && !prev.contains(k) {
            assert(r[prev.len() as int] == k);
            assert forall|x: Seq<char>| prev.contains(x) implies r.contains(x) by {
                let j = choose|j: int| 0 <= j < prev.len() && prev[j] == x;
                assert(r[j] == x);
            }
        }
        assert forall|i: int| 0 <= i < addresses.len() && key_of(#[trigger] addresses[i]).len() > 0
            implies r.contains(key_of(addresses[i])) by {
            if i < addresses.len() - 1 {
                assert(addresses[i] == t[i]);
            }
        }
    }
}

/// The account's own address keys are not blank, none is listed twice, and
/// they take in the account's address and every identity's address that is
/// not blank.
pub proof fn lemma_own_addresses_law(account: Option<MailAccount>, identities: Seq<MailIdentity>)
    ensures
        own_addresses(account, identities).no_duplicates(),
        forall|i: int|
            0 <= i < own_addresses(account, identities).len() ==> (#[trigger] own_addresses(account, identities)[i]).len() > 0,
        forall|i: int|
            0 <= i < identities.len() && key_of((#[trigger] identities[i]).email_address@).len() > 0
                ==> own_addresses(account, identities).contains(key_of(identities[i].email_address@)),
        account is Some && key_of(account->0.email_address@).len() > 0 ==> own_addresses(account, identities).contains(
            key_of(account->0.email_address@),
        ),
{
    let start = match account {
        Some(a) => add_key(Seq::empty(), a.email_address@),
        None => Seq::empty(),
    };
    if let Some(a) = account {
        if key_of(a.email_address@).len() > 0 {
            assert(start[0] == key_of(a.email_address@));
            assert(start.contains(key_of(a.email_address@)));
        }
    }
    let addrs = identity_addresses(identities);
    lemma_unique_keys_law(start, addrs);
    assert forall|i: int|
        0 <= i < identities.len() && key_of((#[trigger] identities[i]).email_address@).len() > 0
            implies own_addresses(account, identities).contains(key_of(identities[i].email_address@)) by {
        assert(addrs[i] == identities[i].email_address@);
    }
}

/// The compose form as an action opens it.
pub struct ComposeForm {
    pub mode: MailComposeMode,
    /// The message that is answered or forwarded; empty for a new message.
    pub source_message_id: String,
    pub to: String,
    pub cc: String,
    pub bcc: String,
    pub subject: String,
    pub body: String,
    pub body_html: String,
    pub in_reply_to: String,
    pub references: Vec<String>,
}

/// The `In-Reply-To` of a reply: the message's `Message-ID` as it stands, or
/// empty.
pub open spec fn message_id_text(message: MailMessageSummary) -> Seq<char> {
    match message.message_id {
        Some(m) => m@,
        None => Seq::empty(),
    }
}

/// A blank compose form for a new message.
pub fn new_compose_form() -> (r: ComposeForm)
    ensures
        r.mode == MailComposeMode::New,
        r.source_message_id@.len() == 0,
        r.to@.len() == 0,
        r.cc@.len() == 0,
        r.bcc@.len() == 0,
        r.subject@.len() == 0,
        r.body@.len() == 0,
        r.body_html@.len() == 0,
        r.in_reply_to@.len() == 0,
        r.references@.len() == 0,
{
    ComposeForm {
        mode: MailComposeMode::New,
        source_message_id: String::new(),
        to: String::new(),
        cc: String::new(),
        bcc: String::new(),
        subject: String::new(),
        body: String::new(),
        body_html: String::new(),
        in_reply_to: String::new(),
        references: Vec::new(),
    }
}

/// The compose form that answering or forwarding `row` opens: a reply goes to
/// the senders, a reply-all to the recipients that `reply_all` picks, a
/// forward to nobody yet; replies quote the message and carry its threading
/// headers, a forward carries the forwarded message and none. A new message
/// opens the blank form.
pub fn compose_form_for(mode: MailComposeMode, row: &MailMessageDetail, own_addresses: &Vec<String>) -> (r: ComposeForm)
    ensures
        r.mode == mode,
        mode == MailComposeMode::New ==> r.source_message_id@.len() == 0 && r.to@.len() == 0 && r.cc@.len() == 0
            && r.subject@.len() == 0 && r.body@.len() == 0 && r.body_html@.len() == 0 && r.in_reply_to@.len() == 0
            && r.references@.len() == 0,
        mode != MailComposeMode::New ==> r.source_message_id@ == row.message.id@,
        r.bcc@.len() == 0,
        mode == MailComposeMode::Reply ==> r.to@ == join(nonblank_address_texts(row.message.from@), ", "@)
            && r.cc@.len() == 0,
        mode == MailComposeMode::ReplyAll ==> r.to@ == join(
            nonblank_address_texts(reply_all(row.message, crate::text::views(own_addresses@)).0),
            ", "@,
        ) && r.cc@ == join(
            nonblank_address_texts(reply_all(row.message, crate::text::views(own_addresses@)).1),
            ", "@,
        ),
        mode == MailComposeMode::Forward ==> r.to@.len() == 0 && r.cc@.len() == 0,
        mode == MailComposeMode::Forward ==> r.subject@ == forward_subject_text(subject_text(row.message)),
        mode == MailComposeMode::Reply || mode == MailComposeMode::ReplyAll ==> r.subject@ == reply_subject_text(
            subject_text(row.message),
        ),
        mode == MailComposeMode::Forward ==> r.body@ == forward_body_text(*row) && r.body_html@
            == forward_body_html_text(*row),
        mode == MailComposeMode::Reply || mode == MailComposeMode::ReplyAll ==> r.body@ == reply_body_text(*row)
            && r.body_html@ == reply_body_html_text(*row),
        mode == MailComposeMode::Forward ==> r.in_reply_to@.len() == 0 && r.references@.len() == 0,
        mode == MailComposeMode::Reply || mode == MailComposeMode::ReplyAll ==> r.in_reply_to@ == message_id_text(
            row.message,
        ) && crate::text::views(r.references@) == reply_references_of(row.message),
{
    if mode == MailComposeMode::New {
        return new_compose_form();
    }
    let subject = message_subject(&row.message);
    if mode == MailComposeMode::Forward {
        return ComposeForm {
            mode,
            source_message_id: row.message.id.clone(),
            to: String::new(),
            cc: String::new(),
            bcc: String::new(),
            subject: forward_subject(subject.as_str()),
            body: forward_body(row),
            body_html: forward_body_html(row),
            in_reply_to: String::new(),
            references: Vec::new(),
        };
    }
    let (to, cc) = if mode == MailComposeMode::ReplyAll {
        let (t, c) = reply_all_recipients(&row.message, own_addresses);
        (compose_address_line(&t), compose_address_line(&c))
    } else {
        (compose_address_line(&row.message.from), String::new())
    };
    let in_reply_to = match &row.message.message_id {
        Some(m) => m.clone(),
        None => String::new(),
    };
    ComposeForm {
        mode,
        source_message_id: row.message.id.clone(),
        to,
        cc,
        bcc: String::new(),
        subject: reply_subject(subject.as_str()),
        body: reply_body(row),
        body_html: reply_body_html(row),
        in_reply_to,
        references: reply_references(&row.message),
    }
}

} // verus!

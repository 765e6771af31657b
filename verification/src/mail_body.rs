//! Bodies of replies and forwards: quoting, HTML escaping and the header
//! blocks that introduce the quoted message.

use vstd::prelude::*;
use crate::mail_model::{MailMessageDetail, MailMessageSummary, opt_view};
use crate::mail_text::{recipients_text, sender_text, subject_text, message_recipients, message_sender, message_subject};
use crate::text::{blank, chars_of, is_blank, join, join_strings, owned, string_of, trim, trim_chars, views};

verus! {

broadcast use vstd::string::group_string_axioms;

/// The HTML escape of one character.
pub open spec fn escape_char(c: char) -> Seq<char> {
    if c == '&' {
        "&amp;"@
    } else if c == '<' {
        "&lt;"@
    } else if c == '>' {
        "&gt;"@
    } else if c == '"' {
        "&quot;"@
    } else if c == '\'' {
        "&#39;"@
    } else {
        seq![c]
    }
}

/// `s` with `&`, `<`, `>`, `"` and `'` replaced by their HTML entities.
pub open spec fn escaped(s: Seq<char>) -> Seq<char>
    decreases s.len(),
{
    if s.len() == 0 {
        Seq::empty()
    } else {
        escaped(s.drop_last()) + escape_char(s.last())
    }
}

/// Escapes text for use inside HTML.
pub fn escape_html(input: &str) -> (r: String)
    ensures
        r@ == escaped(input@),
{
    let v = chars_of(input);
    let mut out = String::new();
    let mut i: usize = 0;
    while i < v.len()
        invariant
            i <= v.len(),
            v@ == input@,
            out@ == escaped(v@.take(i as int)),
        decreases v.len() - i,
    {
        let c = v[i];
        if c == '&' {
            out.append("&amp;");
        } else if c == '<' {
            out.append("&lt;");
        } else if c == '>' {
            out.append("&gt;");
        } else if c == '"' {
            out.append("&quot;");
        } else if c == '\'' {
            out.append("&#39;");
        } else {
            crate::text::push_char(&mut out, c);
        }
        i = i + 1;
        assert(v@.take(i as int).drop_last() =~= v@.take(i - 1));
        assert(out@ =~= escaped(v@.take(i as int)));
    }
    assert(v@.take(v.len() as int) =~= v@);
    out
}

/// A quoted line: `"> "` in front, or just `">"` for an empty line.
pub open spec fn quote_line(l: Seq<char>) -> Seq<char> {
    if l.len() == 0 {
        ">"@
    } else {
        "> "@ + l
    }
}

/// Text quoted for a plain-text reply: every line quoted; a blank text is `">"`.
pub open spec fn quoted(input: Seq<char>) -> Seq<char> {
    if blank(input) {
        ">"@
    } else {
        join(crate::text::lines(input).map_values(|l: Seq<char>| quote_line(l)), "\n"@)
    }
}

/// Quotes text for a plain-text reply.
pub fn quote_plain_text(input: &str) -> (r: String)
    ensures
        r@ == quoted(input@),
{
    if is_blank(input) {
        return owned(">");
    }
    let ls = crate::text::lines_of(&chars_of(input));
    let ghost lv = ls@.map_values(|x: Vec<char>| x@);
    let mut parts: Vec<String> = Vec::new();
    let mut i: usize = 0;
    while i < ls.len()
        invariant
            i <= ls.len(),
            lv == ls@.map_values(|x: Vec<char>| x@),
            views(parts@) == lv.take(i as int).map_values(|l: Seq<char>| quote_line(l)),
        decreases ls.len() - i,
    {
        let line = string_of(&ls[i]);
        let q = if ls[i].len() == 0 {
            owned(">")
        } else {
            crate::text::concat2("> ", line.as_str())
        };
        assert(q@ == quote_line(lv[i as int]));
        let ghost before = views(parts@);
        parts.push(q);
        i = i + 1;
        assert(views(parts@) =~= before.push(q@));
        assert(lv.take(i as int).map_values(|l: Seq<char>| quote_line(l)) =~= lv.take(i - 1).map_values(
            |l: Seq<char>| quote_line(l),
        ).push(quote_line(lv[i - 1])));
    }
    assert(lv.take(ls.len() as int) =~= lv);
    join_strings(&parts, "\n")
}

/// One paragraph as HTML: its lines escaped and joined by `<br>` inside `<p>`.
pub open spec fn paragraph_html(part: Seq<char>) -> Seq<char> {
    "<p>"@ + join(crate::text::lines(part).map_values(|l: Seq<char>| escaped(l)), "<br>"@) + "</p>"@
}

/// Plain text as HTML: the trimmed text split into paragraphs at blank lines
/// (`"\n\n"`), each as a `<p>`; empty for blank text.
pub open spec fn text_html(input: Seq<char>) -> Seq<char> {
    let t = trim(input);
    if t.len() == 0 {
        Seq::empty()
    } else {
        join(
            crate::text::split_pattern(t, "\n\n"@).map_values(|p: Seq<char>| paragraph_html(p)),
            Seq::empty(),
        )
    }
}

fn paragraph_to_html(part: &Vec<char>) -> (r: String)
    ensures
        r@ == paragraph_html(part@),
{
    let ls = crate::text::lines_of(part);
    let ghost lv = ls@.map_values(|x: Vec<char>| x@);
    let mut parts: Vec<String> = Vec::new();
    let mut i: usize = 0;
    while i < ls.len()
        invariant
            i <= ls.len(),
            lv == ls@.map_values(|x: Vec<char>| x@),
            views(parts@) == lv.take(i as int).map_values(|l: Seq<char>| escaped(l)),
        decreases ls.len() - i,
    {
        let line = string_of(&ls[i]);
        let e = escape_html(line.as_str());
        let ghost before = views(parts@);
        parts.push(e);
        i = i + 1;
        assert(views(parts@) =~= before.push(e@));
        assert(lv.take(i as int).map_values(|l: Seq<char>| escaped(l)) =~= lv.take(i - 1).map_values(
            |l: Seq<char>| escaped(l),
        ).push(escaped(lv[i - 1])));
    }
    assert(lv.take(ls.len() as int) =~= lv);
    let inner = join_strings(&parts, "<br>");
    crate::text::concat3("<p>", inner.as_str(), "</p>")
}

/// Turns plain text into simple HTML paragraphs.
pub fn plain_text_to_html(input: &str) -> (r: String)
    ensures
        r@ == text_html(input@),
{
    let t = trim_chars(&chars_of(input));
    if t.len() == 0 {
        return String::new();
    }
    let mut sep: Vec<char> = Vec::new();
    sep.push('\n');
    sep.push('\n');
    proof {
        reveal_strlit("\n\n");
    }
    assert(sep@ =~= "\n\n"@);
    let ps = crate::text::split_on_pattern(&t, &sep);
    let ghost pv = ps@.map_values(|x: Vec<char>| x@);
    let mut parts: Vec<String> = Vec::new();
    let mut i: usize = 0;
    while i < ps.len()
        invariant
            i <= ps.len(),
            pv == ps@.map_values(|x: Vec<char>| x@),
            views(parts@) == pv.take(i as int).map_values(|p: Seq<char>| paragraph_html(p)),
        decreases ps.len() - i,
    {
        let h = paragraph_to_html(&ps[i]);
        let ghost before = views(parts@);
        parts.push(h);
        i = i + 1;
        assert(views(parts@) =~= before.push(h@));
        assert(pv.take(i as int).map_values(|p: Seq<char>| paragraph_html(p)) =~= pv.take(i - 1).map_values(
            |p: Seq<char>| paragraph_html(p),
        ).push(paragraph_html(pv[i - 1])));
    }
    assert(pv.take(ps.len() as int) =~= pv);
    proof {
        reveal_strlit("");
    }
    assert(""@ =~= Seq::<char>::empty());
    let r = join_strings(&parts, "");
    assert(r@ == join(pv.map_values(|p: Seq<char>| paragraph_html(p)), Seq::empty()));
    r
}

/// `s` with every `T` replaced by a space.
pub open spec fn t_to_space(s: Seq<char>) -> Seq<char> {
    s.map_values(|c: char| if c == 'T' { ' ' } else { c })
}

/// The part of `s` before its first `.`.
pub open spec fn before_dot(s: Seq<char>) -> Seq<char>
    decreases s.len(),
{
    if s.len() == 0 {
        s
    } else if s[0] == '.' {
        Seq::empty()
    } else {
        seq![s[0]] + before_dot(s.drop_first())
    }
}

/// `s` without trailing `Z`s.
pub open spec fn strip_z(s: Seq<char>) -> Seq<char>
    decreases s.len(),
{
    if s.len() > 0 && s.last() == 'Z' {
        strip_z(s.drop_last())
    } else {
        s
    }
}

/// A timestamp shortened for display: `T` as a space, fractional seconds and
/// trailing `Z`s dropped, at most 16 characters (`YYYY-MM-DD hh:mm`).
pub open spec fn short_date_text(v: Option<Seq<char>>) -> Seq<char> {
    match v {
        Some(s) => {
            let x = strip_z(before_dot(t_to_space(s)));
            if x.len() <= 16 {
                x
            } else {
                x.take(16)
            }
        },
        None => Seq::empty(),
    }
}

proof fn lemma_before_dot_prefix(s: Seq<char>, i: int)
    requires
        0 <= i <= s.len(),
        forall|j: int| 0 <= j < i ==> s[j] != '.',
    ensures
        before_dot(s) == s.take(i) + before_dot(s.skip(i)),
    decreases i,
{
    if i == 0 {
        assert(s.skip(0) =~= s);
        assert(s.take(0) + before_dot(s) =~= before_dot(s));
    } else {
        assert forall|j: int| 0 <= j < i - 1 implies s.drop_first()[j] != '.' by {
            assert(s.drop_first()[j] == s[j + 1]);
        }
        lemma_before_dot_prefix(s.drop_first(), i - 1);
        assert(s.drop_first().skip(i - 1) =~= s.skip(i));
        assert(seq![s[0]] + s.drop_first().take(i - 1) =~= s.take(i));
        assert(seq![s[0]] + (s.drop_first().take(i - 1) + before_dot(s.skip(i))) =~= s.take(i)
            + before_dot(s.skip(i)));
    }
}

/// Shortens an optional timestamp for display; empty when absent.
pub fn short_date(value: Option<&str>) -> (r: String)
    ensures
        r@ == short_date_text(
            match value {
                Some(v) => Some(v@),
                None => None,
            },
        ),
{
    let v = match value {
        Some(v) => v,
        None => {
            return String::new();
        },
    };
    let cs = chars_of(v);
    let ghost mapped = t_to_space(cs@);
    let mut x: Vec<char> = Vec::new();
    let mut i: usize = 0;
    while i < cs.len() && cs[i] != '.'
        invariant
            i <= cs.len(),
            mapped == t_to_space(cs@),
            x@ == mapped.take(i as int),
            forall|j: int| 0 <= j < i ==> cs@[j] != '.',
        decreases cs.len() - i,
    {
        let c = if cs[i] == 'T' {
            ' '
        } else {
            cs[i]
        };
        x.push(c);
        i = i + 1;
        assert(x@ =~= mapped.take(i as int));
    }
    proof {
        assert forall|j: int| 0 <= j < i implies mapped[j] != '.' by {}
        lemma_before_dot_prefix(mapped, i as int);
        if i < cs.len() {
            assert(mapped.skip(i as int)[0] == '.');
            assert(before_dot(mapped.skip(i as int)) =~= Seq::<char>::empty());
        } else {
            assert(mapped.skip(i as int) =~= Seq::<char>::empty());
        }
        assert(before_dot(mapped) =~= x@);
    }
    while x.len() > 0 && x[x.len() - 1] == 'Z'
        invariant
            strip_z(before_dot(mapped)) == strip_z(x@),
        decreases x.len(),
    {
        x.pop();
    }
    assert(strip_z(x@) == x@);
    if x.len() > 16 {
        let mut y: Vec<char> = Vec::new();
        let mut k: usize = 0;
        while k < 16
            invariant
                k <= 16,
                16 < x.len(),
                y@ == x@.take(k as int),
            decreases 16 - k,
        {
            y.push(x[k]);
            k = k + 1;
            assert(y@ =~= x@.take(k as int));
        }
        string_of(&y)
    } else {
        string_of(&x)
    }
}

/// The date of a message: when it arrived, else its `Date` header.
pub open spec fn message_date(m: MailMessageSummary) -> Option<Seq<char>> {
    match m.internal_date {
        Some(d) => Some(d@),
        None => opt_view(m.date),
    }
}

fn short_message_date(m: &MailMessageSummary) -> (r: String)
    ensures
        r@ == short_date_text(message_date(*m)),
{
    match &m.internal_date {
        Some(d) => short_date(Some(d.as_str())),
        None => match &m.date {
            Some(d) => short_date(Some(d.as_str())),
            None => short_date(None),
        },
    }
}

/// The text that a plain reply quotes: the text body if not blank, else the
/// snippet, else nothing.
pub open spec fn plain_source(row: MailMessageDetail) -> Seq<char> {
    match row.body_text {
        Some(t) => if !blank(t@) {
            t@
        } else {
            match row.message.snippet {
                Some(s) => s@,
                None => Seq::empty(),
            }
        },
        None => match row.message.snippet {
            Some(s) => s@,
            None => Seq::empty(),
        },
    }
}

/// The text that a plain reply or forward quotes.
pub fn plain_reply_source(row: &MailMessageDetail) -> (r: String)
    ensures
        r@ == plain_source(*row),
{
    if let Some(t) = &row.body_text {
        if !is_blank(t.as_str()) {
            return t.clone();
        }
    }
    match &row.message.snippet {
        Some(s) => s.clone(),
        None => String::new(),
    }
}

/// The HTML that an HTML reply quotes: the HTML body if not blank, else the
/// plain source as HTML.
pub open spec fn html_source(row: MailMessageDetail) -> Seq<char> {
    match row.body_html {
        Some(h) => if !blank(h@) {
            h@
        } else {
            text_html(plain_source(row))
        },
        None => text_html(plain_source(row)),
    }
}

/// The HTML that an HTML reply or forward quotes.
pub fn html_reply_source(row: &MailMessageDetail) -> (r: String)
    ensures
        r@ == html_source(*row),
{
    if let Some(h) = &row.body_html {
        if !is_blank(h.as_str()) {
            return h.clone();
        }
    }
    let p = plain_reply_source(row);
    plain_text_to_html(p.as_str())
}

/// The body of a plain reply: an attribution line, then the quoted message.
pub open spec fn reply_body_text(row: MailMessageDetail) -> Seq<char> {
    "\n\nOn "@ + short_date_text(message_date(row.message)) + ", "@ + sender_text(row.message)
        + " wrote:\n"@ + quoted(plain_source(row))
}

/// The body that a plain reply starts with.
pub fn reply_body(row: &MailMessageDetail) -> (r: String)
    ensures
        r@ == reply_body_text(*row),
{
    let source = plain_reply_source(row);
    let quoted_text = quote_plain_text(source.as_str());
    let date = short_message_date(&row.message);
    let sender = message_sender(&row.message);
    let mut out = owned("\n\nOn ");
    out.append(date.as_str());
    out.append(", ");
    out.append(sender.as_str());
    out.append(" wrote:\n");
    out.append(quoted_text.as_str());
    out
}

/// The body of an HTML reply: the attribution as a paragraph, then the
/// message's HTML in a blockquote.
pub open spec fn reply_body_html_text(row: MailMessageDetail) -> Seq<char> {
    "<p></p><p>On "@ + escaped(short_date_text(message_date(row.message))) + ", "@ + escaped(
        sender_text(row.message),
    ) + " wrote:</p><blockquote>"@ + html_source(row) + "</blockquote>"@
}

/// The HTML body that a reply starts with.
pub fn reply_body_html(row: &MailMessageDetail) -> (r: String)
    ensures
        r@ == reply_body_html_text(*row),
{
    let date = escape_html(short_message_date(&row.message).as_str());
    let sender = escape_html(message_sender(&row.message).as_str());
    let source = html_reply_source(row);
    let mut out = owned("<p></p><p>On ");
    out.append(date.as_str());
    out.append(", ");
    out.append(sender.as_str());
    out.append(" wrote:</p><blockquote>");
    out.append(source.as_str());
    out.append("</blockquote>");
    out
}

/// The body of a plain forward: a header block, then the message text.
pub open spec fn forward_body_text(row: MailMessageDetail) -> Seq<char> {
    "\n\n---------- Forwarded message ---------\n"@ + "From: "@ + sender_text(row.message) + "\n"@
        + "Date: "@ + short_date_text(message_date(row.message)) + "\n"@ + "Subject: "@
        + subject_text(row.message) + "\n"@ + "To: "@ + recipients_text(row.message) + "\n\n"@
        + plain_source(row)
}

/// The body that a plain forward starts with.
pub fn forward_body(row: &MailMessageDetail) -> (r: String)
    ensures
        r@ == forward_body_text(*row),
{
    let source = plain_reply_source(row);
    let mut out = owned("\n\n---------- Forwarded message ---------\n");
    out.append("From: ");
    out.append(message_sender(&row.message).as_str());
    out.append("\n");
    out.append("Date: ");
    out.append(short_message_date(&row.message).as_str());
    out.append("\n");
    out.append("Subject: ");
    out.append(message_subject(&row.message).as_str());
    out.append("\n");
    out.append("To: ");
    out.append(message_recipients(&row.message).as_str());
    out.append("\n\n");
    out.append(source.as_str());
    out
}

/// The body of an HTML forward: an escaped header block, then the message's HTML.
pub open spec fn forward_body_html_text(row: MailMessageDetail) -> Seq<char> {
    "<p></p><p>---------- Forwarded message ---------</p><p><strong>From:</strong> "@ + escaped(
        sender_text(row.message),
    ) + "<br><strong>Date:</strong> "@ + escaped(short_date_text(message_date(row.message)))
        + "<br><strong>Subject:</strong> "@ + escaped(subject_text(row.message))
        + "<br><strong>To:</strong> "@ + escaped(recipients_text(row.message)) + "</p>"@
        + html_source(row)
}

/// The HTML body that a forward starts with.
pub fn forward_body_html(row: &MailMessageDetail) -> (r: String)
    ensures
        r@ == forward_body_html_text(*row),
{
    let source = html_reply_source(row);
    let date = escape_html(short_message_date(&row.message).as_str());
    let sender = escape_html(message_sender(&row.message).as_str());
    let subject = escape_html(message_subject(&row.message).as_str());
    let recipients = escape_html(message_recipients(&row.message).as_str());
    let mut out = owned("<p></p><p>---------- Forwarded message ---------</p><p><strong>From:</strong> ");
    out.append(sender.as_str());
    out.append("<br><strong>Date:</strong> ");
    out.append(date.as_str());
    out.append("<br><strong>Subject:</strong> ");
    out.append(subject.as_str());
    out.append("<br><strong>To:</strong> ");
    out.append(recipients.as_str());
    out.append("</p>");
    out.append(source.as_str());
    out
}

/// Escaped text holds no markup character: no `<`, `>`, `"` or `'` is left,
/// so it can stand in element content and in quoted attribute values.
pub proof fn lemma_escaped_has_no_markup(s: Seq<char>)
    ensures
        forall|i: int|
            0 <= i < escaped(s).len() ==> {
                let c = #[trigger] escaped(s)[i];
                c != '<' && c != '>' && c != '"' && c != '\''
            },
    decreases s.len(),
{
    reveal_strlit("&amp;");
    reveal_strlit("&lt;");
    reveal_strlit("&gt;");
    reveal_strlit("&quot;");
    reveal_strlit("&#39;");
    if s.len() > 0 {
        lemma_escaped_has_no_markup(s.drop_last());
        let a = escaped(s.drop_last());
        let b = escape_char(s.last());
        assert forall|i: int| 0 <= i < escaped(s).len() implies {
            let c = #[trigger] escaped(s)[i];
            c != '<' && c != '>' && c != '"' && c != '\''
        } by {
            if i < a.len() {
                assert(escaped(s)[i] == a[i]);
            } else {
                assert(escaped(s)[i] == b[i - a.len()]);
            }
        }
    }
}

/// Whether `t` starts with `p`.
pub open spec fn starts_with(t: Seq<char>, p: Seq<char>) -> bool {
    p.len() <= t.len() && t.take(p.len() as int) == p
}

/// The entities that escaping writes, as characters.
pub open spec fn amp_entity() -> Seq<char> {
    seq!['&', 'a', 'm', 'p', ';']
}

/// `&lt;`.
pub open spec fn lt_entity() -> Seq<char> {
    seq!['&', 'l', 't', ';']
}

/// `&gt;`.
pub open spec fn gt_entity() -> Seq<char> {
    seq!['&', 'g', 't', ';']
}

/// `&quot;`.
pub open spec fn quot_entity() -> Seq<char> {
    seq!['&', 'q', 'u', 'o', 't', ';']
}

/// `&#39;`.
pub open spec fn apos_entity() -> Seq<char> {
    seq!['&', '#', '3', '9', ';']
}

/// Escaped HTML read back: each entity that `escaped` writes (`&amp;`,
/// `&lt;`, `&gt;`, `&quot;`, `&#39;`) turned into its character, from left
/// to right, every other character kept.
pub open spec fn unescaped(t: Seq<char>) -> Seq<char>
    decreases t.len(),
{
    if t.len() == 0 {
        Seq::empty()
    } else if starts_with(t, amp_entity()) {
        seq!['&'] + unescaped(t.skip(5))
    } else if starts_with(t, lt_entity()) {
        seq!['<'] + unescaped(t.skip(4))
    } else if starts_with(t, gt_entity()) {
        seq!['>'] + unescaped(t.skip(4))
    } else if starts_with(t, quot_entity()) {
        seq!['"'] + unescaped(t.skip(6))
    } else if starts_with(t, apos_entity()) {
        seq!['\''] + unescaped(t.skip(5))
    } else {
        seq![t[0]] + unescaped(t.skip(1))
    }
}

/// Whether an entity that `escaped` writes starts at `i` in `t`.
pub open spec fn entity_at(t: Seq<char>, i: int) -> bool {
    ||| starts_with(t.skip(i), amp_entity())
    ||| starts_with(t.skip(i), lt_entity())
    ||| starts_with(t.skip(i), gt_entity())
    ||| starts_with(t.skip(i), quot_entity())
    ||| starts_with(t.skip(i), apos_entity())
}

proof fn lemma_reveal_entities()
    ensures
        "&amp;"@ == amp_entity(),
        "&lt;"@ == lt_entity(),
        "&gt;"@ == gt_entity(),
        "&quot;"@ == quot_entity(),
        "&#39;"@ == apos_entity(),
{
    reveal_strlit("&amp;");
    reveal_strlit("&lt;");
    reveal_strlit("&gt;");
    reveal_strlit("&quot;");
    reveal_strlit("&#39;");
    assert("&amp;"@ =~= amp_entity());
    assert("&lt;"@ =~= lt_entity());
    assert("&gt;"@ =~= gt_entity());
    assert("&quot;"@ =~= quot_entity());
    assert("&#39;"@ =~= apos_entity());
}

proof fn lemma_escaped_append(a: Seq<char>, b: Seq<char>)
    ensures
        escaped(a + b) == escaped(a) + escaped(b),
    decreases b.len(),
{
    if b.len() == 0 {
        assert(a + b =~= a);
        assert(escaped(a) + escaped(b) =~= escaped(a));
    } else {
        lemma_escaped_append(a, b.drop_last());
        assert((a + b).drop_last() =~= a + b.drop_last());
        assert((a + b).last() == b.last());
        assert(escaped(a) + escaped(b.drop_last()) + escape_char(b.last()) =~= escaped(a) + (escaped(
            b.drop_last(),
        ) + escape_char(b.last())));
    }
}

proof fn lemma_unescape_char(c: char, rest: Seq<char>)
    ensures
        unescaped(escape_char(c) + rest) == seq![c] + unescaped(rest),
{
    lemma_reveal_entities();
    let t = escape_char(c) + rest;
    let n = escape_char(c).len() as int;
    assert(t.skip(n) =~= rest);
    assert(t.take(n) =~= escape_char(c));
    if c == '&' {
    } else if c == '<' {
        assert(!starts_with(t, amp_entity())) by { assert(t[1] != amp_entity()[1]); }
    } else if c == '>' {
        assert(!starts_with(t, amp_entity())) by { assert(t[1] != amp_entity()[1]); }
        assert(!starts_with(t, lt_entity())) by { assert(t[1] != lt_entity()[1]); }
    } else if c == '"' {
        assert(!starts_with(t, amp_entity())) by { assert(t[1] != amp_entity()[1]); }
        assert(!starts_with(t, lt_entity())) by { assert(t[1] != lt_entity()[1]); }
        assert(!starts_with(t, gt_entity())) by { assert(t[1] != gt_entity()[1]); }
    } else if c == '\'' {
        assert(!starts_with(t, amp_entity())) by { assert(t[1] != amp_entity()[1]); }
        assert(!starts_with(t, lt_entity())) by { assert(t[1] != lt_entity()[1]); }
        assert(!starts_with(t, gt_entity())) by { assert(t[1] != gt_entity()[1]); }
        assert(!starts_with(t, quot_entity())) by { assert(t[1] != quot_entity()[1]); }
    } else {
        assert(t[0] == c);
        assert(!starts_with(t, amp_entity())) by { assert(t[0] != amp_entity()[0]); }
        assert(!starts_with(t, lt_entity())) by { assert(t[0] != lt_entity()[0]); }
        assert(!starts_with(t, gt_entity())) by { assert(t[0] != gt_entity()[0]); }
        assert(!starts_with(t, quot_entity())) by { assert(t[0] != quot_entity()[0]); }
        assert(!starts_with(t, apos_entity())) by { assert(t[0] != apos_entity()[0]); }
    }
}

proof fn lemma_unescape_escaped_then(s: Seq<char>, rest: Seq<char>)
    ensures
        unescaped(escaped(s) + rest) == s + unescaped(rest),
    decreases s.len(),
{
    if s.len() == 0 {
        assert(escaped(s) + rest =~= rest);
        assert(s + unescaped(rest) =~= unescaped(rest));
    } else {
        let c = s[0];
        let tail = s.drop_first();
        assert(s =~= seq![c] + tail);
        lemma_escaped_append(seq![c], tail);
        assert(seq![c].drop_last() =~= Seq::<char>::empty());
        assert(escaped(Seq::<char>::empty()) =~= Seq::<char>::empty());
        assert(seq![c].last() == c);
        assert(escaped(seq![c]) =~= escape_char(c));
        lemma_unescape_escaped_then(tail, rest);
        assert(escaped(s) + rest =~= escape_char(c) + (escaped(tail) + rest));
        lemma_unescape_char(c, escaped(tail) + rest);
        assert(seq![c] + (tail + unescaped(rest)) =~= s + unescaped(rest));
    }
}

/// Escaping loses nothing and escapes nothing twice: reading the entities
/// back gives the text exactly.
pub proof fn lemma_unescape_escaped(s: Seq<char>)
    ensures
        unescaped(escaped(s)) == s,
{
    lemma_unescape_escaped_then(s, Seq::empty());
    assert(escaped(s) + Seq::<char>::empty() =~= escaped(s));
    assert(s + Seq::<char>::empty() =~= s);
}

/// Every `&` of escaped text starts one of the entities that escaping
/// writes, so the text has no bare ampersand.
pub proof fn lemma_escaped_ampersands(s: Seq<char>)
    ensures
        forall|i: int| 0 <= i < escaped(s).len() && #[trigger] escaped(s)[i] == '&' ==> entity_at(escaped(s), i),
    decreases s.len(),
{
    lemma_reveal_entities();
    if s.len() > 0 {
        lemma_escaped_has_no_markup(s.drop_last());
        lemma_escaped_ampersands(s.drop_last());
        let a = escaped(s.drop_last());
        let b = escape_char(s.last());
        let t = escaped(s);
        assert(t == a + b);
        assert forall|i: int| 0 <= i < t.len() && #[trigger] t[i] == '&' implies entity_at(t, i) by {
            if i < a.len() {
                assert(t[i] == a[i]);
                assert(entity_at(a, i));
                let x = a.skip(i);
                let y = t.skip(i);
                assert forall|k: int| 0 <= k < x.len() implies y[k] == x[k] by {
                    assert(y[k] == t[i + k]);
                    assert(t[i + k] == a[i + k]);
                }
                if starts_with(x, amp_entity()) {
                    assert(y.take(5) =~= x.take(5));
                } else if starts_with(x, lt_entity()) {
                    assert(y.take(4) =~= x.take(4));
                } else if starts_with(x, gt_entity()) {
                    assert(y.take(4) =~= x.take(4));
                } else if starts_with(x, quot_entity()) {
                    assert(y.take(6) =~= x.take(6));
                } else {
                    assert(y.take(5) =~= x.take(5));
                }
            } else {
                let j = i - a.len();
                assert(t[i] == b[j]);
                assert(t.skip(i) =~= b.skip(j));
                assert(j == 0);
                assert(b.skip(0) =~= b);
                assert(b.take(b.len() as int) =~= b);
            }
        }
    }
}

} // verus!

//! RFC 2822 message construction: a keyed header block over a byte body,
//! and a builder that renders recipients, stamps Date and Content-Type, and
//! assembles a multipart body behind a fresh boundary token.
use vstd::prelude::*;
use vstd::string::*;
use vstd::utf8::encode_utf8;

verus! {

/// One header, as text.
#[verifier::ext_equal]
pub struct SpecHeader {
    pub name: Seq<char>,
    pub value: Seq<char>,
}

/// A stored header, as text.
pub open spec fn header_view(p: (String, String)) -> SpecHeader {
    SpecHeader { name: p.0@, value: p.1@ }
}

/// The value under `key`: first exact match.
pub open spec fn spec_get_header(s: Seq<SpecHeader>, key: Seq<char>) -> Option<Seq<char>>
    decreases s.len(),
{
    if s.len() == 0 {
        None
    } else if s[0].name == key {
        Some(s[0].value)
    } else {
        spec_get_header(s.skip(1), key)
    }
}

/// Writing a header: the first entry of the same name is replaced (last
/// write wins), a fresh name goes to the end.
pub open spec fn spec_set_header(s: Seq<SpecHeader>, key: Seq<char>, value: Seq<char>) -> Seq<
    SpecHeader,
>
    decreases s.len(),
{
    if s.len() == 0 {
        seq![SpecHeader { name: key, value }]
    } else if s[0].name == key {
        seq![SpecHeader { name: key, value }] + s.skip(1)
    } else {
        seq![s[0]] + spec_set_header(s.skip(1), key, value)
    }
}

/// The serialized header block: one `Name: value CRLF` line per header, in
/// stored order.
pub open spec fn spec_header_block(s: Seq<SpecHeader>) -> Seq<u8>
    decreases s.len(),
{
    if s.len() == 0 {
        Seq::empty()
    } else {
        spec_header_block(s.drop_last()) + encode_utf8(
            s.last().name + ": "@ + s.last().value + "\r\n"@,
        )
    }
}

/// The whole message: the header block, a blank line (and one more CRLF, as
/// the wire format has it), then the body.
pub open spec fn spec_mail_bytes(headers: Seq<SpecHeader>, body: Seq<u8>) -> Seq<u8> {
    spec_header_block(headers) + seq![13u8, 10u8, 13u8, 10u8] + body
}

/// A message under construction: ordered headers with unique names (last
/// write wins), over a raw byte body.
pub struct MailData {
    pub header: Vec<(String, String)>,
    pub body: Vec<u8>,
}

impl MailData {
    /// The headers, as text.
    pub open spec fn headers_view(&self) -> Seq<SpecHeader> {
        self.header@.map_values(|p: (String, String)| header_view(p))
    }

    /// An empty message.
    pub fn new() -> (r: MailData)
        ensures
            r.headers_view() == Seq::<SpecHeader>::empty(),
            r.body@ == Seq::<u8>::empty(),
    {
        let r = MailData { header: Vec::new(), body: Vec::new() };
        proof {
            assert(r.headers_view() =~= Seq::<SpecHeader>::empty());
        }
        r
    }

    /// The value stored under `key`, matched exactly.
    pub fn header(&self, key: &str) -> (r: Option<&String>)
        ensures
            match r {
                Some(v) => spec_get_header(self.headers_view(), key@) == Some(v@),
                None => spec_get_header(self.headers_view(), key@) is None,
            },
    {
        let n = self.header.len();
        let mut i: usize = 0;
        proof {
            assert(self.headers_view().skip(0) =~= self.headers_view());
        }
        while i < n
            invariant
                n == self.header@.len(),
                i <= n,
                spec_get_header(self.headers_view(), key@) == spec_get_header(
                    self.headers_view().skip(i as int),
                    key@,
                ),
            decreases n - i,
        {
            proof {
                assert(self.headers_view().skip(i as int)[0] == self.headers_view()[i as int]);
            }
            if crate::extension::str_eq(self.header[i].0.as_str(), key) {
                return Some(&self.header[i].1);
            }
            proof {
                assert(self.headers_view().skip(i as int).skip(1) =~= self.headers_view().skip(
                    i + 1,
                ));
            }
            i = i + 1;
        }
        proof {
            assert(self.headers_view().skip(n as int).len() == 0);
        }
        None
    }

    /// Writes a header; an existing header of the same name is replaced.
    pub fn set_header(&mut self, key: String, value: String)
        ensures
            final(self).body@ == old(self).body@,
            final(self).headers_view() == spec_set_header(old(self).headers_view(), key@, value@),
    {
        let ghost gkey = key@;
        let ghost gvalue = value@;
        let n = self.header.len();
        let mut i: usize = 0;
        while i < n
            invariant
                n == self.header@.len(),
                i <= n,
                self == old(self),
                gkey == key@,
                gvalue == value@,
                forall|j: int| 0 <= j < i ==> old(self).headers_view()[j].name != key@,
            decreases n - i,
        {
            if crate::extension::str_eq(self.header[i].0.as_str(), key.as_str()) {
                let ghost old_entries = self.header@;
                let ghost old_view = self.headers_view();
                let ghost gentry: (String, String) = (key, value);
                proof {
                    assert(header_view(gentry) =~= SpecHeader { name: gkey, value: gvalue });
                }
                self.header.remove(i);
                self.header.insert(i, (key, value));
                proof {
                    assert(self.header@ =~= old_entries.update(i as int, gentry));
                    lemma_set_header_at(old_view, i as int, gkey, gvalue);
                    let target = old_view.update(i as int, SpecHeader { name: gkey, value: gvalue });
                    assert forall|j: int| 0 <= j < self.headers_view().len() implies self
                        .headers_view()[j] == target[j] by {
                        assert(self.headers_view()[j] == header_view(self.header@[j]));
                        if j == i {
                            assert(self.header@[j] == gentry);
                        } else {
                            assert(self.header@[j] == old_entries[j]);
                            assert(target[j] == old_view[j]);
                            assert(old_view[j] == header_view(old_entries[j]));
                        }
                    }
                    assert(self.headers_view() =~= target);
                }
                return ;
            }
            i = i + 1;
        }
        let ghost old_view = self.headers_view();
        let ghost old_entries = self.header@;
        let ghost gentry: (String, String) = (key, value);
        proof {
            assert(header_view(gentry) =~= SpecHeader { name: gkey, value: gvalue });
        }
        self.header.push((key, value));
        proof {
            assert(self.header@ =~= old_entries.push(gentry));
            lemma_set_header_absent(old_view, gkey, gvalue);
            let target = old_view.push(SpecHeader { name: gkey, value: gvalue });
            assert forall|j: int| 0 <= j < self.headers_view().len() implies self.headers_view()[j]
                == target[j] by {
                assert(self.headers_view()[j] == header_view(self.header@[j]));
                if j < old_entries.len() {
                    assert(self.header@[j] == old_entries[j]);
                    assert(old_view[j] == header_view(old_entries[j]));
                } else {
                    assert(self.header@[j] == gentry);
                }
            }
            assert(self.headers_view() =~= target);
        }
    }

    /// Serializes the message: the header lines in stored order, a blank
    /// line, then the body.
    pub fn into_bytes(self) -> (r: Vec<u8>)
        ensures
            r@ == spec_mail_bytes(self.headers_view(), self.body@),
    {
        let ghost hv = self.headers_view();
        let mut out: Vec<u8> = Vec::new();
        let n = self.header.len();
        let mut i: usize = 0;
        proof {
            assert(hv.take(0) =~= Seq::<SpecHeader>::empty());
            assert(out@ =~= spec_header_block(hv.take(0)));
        }
        while i < n
            invariant
                n == self.header@.len(),
                hv == self.headers_view(),
                i <= n,
                out@ == spec_header_block(hv.take(i as int)),
            decreases n - i,
        {
            let mut line = self.header[i].0.clone();
            line.append(": ");
            line.append(self.header[i].1.as_str());
            line.append("\r\n");
            proof {
                assert(line@ =~= hv[i as int].name + ": "@ + hv[i as int].value + "\r\n"@);
            }
            out.extend_from_slice(line.as_str().as_bytes());
            proof {
                assert(hv.take(i + 1).drop_last() =~= hv.take(i as int));
                assert(hv.take(i + 1).last() == hv[i as int]);
            }
            i = i + 1;
        }
        proof {
            assert(hv.take(n as int) =~= hv);
        }
        out.push(13);
        out.push(10);
        out.push(13);
        out.push(10);
        out.extend_from_slice(self.body.as_slice());
        proof {
            assert(out@ =~= spec_mail_bytes(hv, self.body@));
        }
        out
    }
}

/// Replacing the first matching header, seen from `spec_set_header`.
proof fn lemma_set_header_at(s: Seq<SpecHeader>, i: int, key: Seq<char>, value: Seq<char>)
    requires
        0 <= i < s.len(),
        s[i].name == key,
        forall|j: int| 0 <= j < i ==> s[j].name != key,
    ensures
        spec_set_header(s, key, value) == s.update(i, SpecHeader { name: key, value }),
    decreases s.len(),
{
    if i == 0 {
        assert(spec_set_header(s, key, value) =~= s.update(0, SpecHeader { name: key, value }));
    } else {
        lemma_set_header_at(s.skip(1), i - 1, key, value);
        assert(s.skip(1)[i - 1] == s[i]);
        assert forall|j: int| 0 <= j < i - 1 implies s.skip(1)[j].name != key by {
            assert(s.skip(1)[j] == s[j + 1]);
        }
        assert(spec_set_header(s, key, value) =~= s.update(i, SpecHeader { name: key, value }));
    }
}

/// Writing a fresh header, seen from `spec_set_header`.
proof fn lemma_set_header_absent(s: Seq<SpecHeader>, key: Seq<char>, value: Seq<char>)
    requires
        forall|j: int| 0 <= j < s.len() ==> s[j].name != key,
    ensures
        spec_set_header(s, key, value) == s.push(SpecHeader { name: key, value }),
    decreases s.len(),
{
    if s.len() == 0 {
        assert(spec_set_header(s, key, value) =~= s.push(SpecHeader { name: key, value }));
    } else {
        lemma_set_header_absent(s.skip(1), key, value);
        assert forall|j: int| 0 <= j < s.skip(1).len() implies s.skip(1)[j].name != key by {
            assert(s.skip(1)[j] == s[j + 1]);
        }
        assert(spec_set_header(s, key, value) =~= s.push(SpecHeader { name: key, value }));
    }
}

/// A recipient or sender: an address with an optional display name.
pub struct MailBox {
    pub display_name: Option<String>,
    pub address: String,
}

impl MailBox {
    /// `"name" <address>`, or `<address>` without a display name.
    pub open spec fn spec_render(&self) -> Seq<char> {
        match self.display_name {
            Some(n) => "\""@ + n@ + "\" <"@ + self.address@ + ">"@,
            None => "<"@ + self.address@ + ">"@,
        }
    }

    /// A bare address.
    pub fn from_address(address: String) -> (r: MailBox)
        ensures
            r.display_name is None,
            r.address == address,
    {
        MailBox { display_name: None, address }
    }

    /// An address with a display name.
    pub fn with_name(display_name: String, address: String) -> (r: MailBox)
        ensures
            r.display_name == Some(display_name),
            r.address == address,
    {
        MailBox { display_name: Some(display_name), address }
    }

    /// Renders the mailbox for a recipient header.
    pub fn render(&self) -> (r: String)
        ensures
            r@ == self.spec_render(),
    {
        match &self.display_name {
            Some(n) => {
                let mut s = String::from_str("\"");
                s.append(n.as_str());
                s.append("\" <");
                s.append(self.address.as_str());
                s.append(">");
                s
            },
            None => {
                let mut s = String::from_str("<");
                s.append(self.address.as_str());
                s.append(">");
                s
            },
        }
    }
}

/// A recipient list, rendered and joined with commas.
pub open spec fn spec_mail_list(boxes: Seq<MailBox>) -> Seq<char>
    decreases boxes.len(),
{
    if boxes.len() == 0 {
        Seq::empty()
    } else if boxes.len() == 1 {
        boxes[0].spec_render()
    } else {
        spec_mail_list(boxes.drop_last()) + ","@ + boxes.last().spec_render()
    }
}

/// Renders a recipient list as a comma-joined header value.
pub fn into_mail_list(list: &Vec<MailBox>) -> (r: String)
    ensures
        r@ == spec_mail_list(list@),
{
    let mut out = String::new();
    let n = list.len();
    let mut i: usize = 0;
    proof {
        assert(list@.take(0) =~= Seq::<MailBox>::empty());
        assert(out@ =~= spec_mail_list(list@.take(0)));
    }
    while i < n
        invariant
            n == list@.len(),
            i <= n,
            out@ == spec_mail_list(list@.take(i as int)),
        decreases n - i,
    {
        if i > 0 {
            out.append(",");
        }
        let rendered = list[i].render();
        out.append(rendered.as_str());
        proof {
            assert(list@.take(i + 1).drop_last() =~= list@.take(i as int));
            assert(list@.take(i + 1).last() == list@[i as int]);
            if i == 0 {
                assert(list@.take(1).len() == 1);
                assert(list@.take(1)[0] == list@[0]);
            }
        }
        i = i + 1;
    }
    proof {
        assert(list@.take(n as int) =~= list@);
    }
    out
}

/// The multipart body: each part behind a `--boundary` delimiter line, then
/// the closing `--boundary--` line.
pub open spec fn spec_parts_block(boundary: Seq<char>, parts: Seq<Seq<u8>>) -> Seq<u8>
    decreases parts.len(),
{
    if parts.len() == 0 {
        Seq::empty()
    } else {
        spec_parts_block(boundary, parts.drop_last()) + encode_utf8("--"@ + boundary + "\r\n"@)
            + parts.last()
    }
}

/// The assembled multipart body.
pub open spec fn spec_multipart_body(boundary: Seq<char>, parts: Seq<Seq<u8>>) -> Seq<u8> {
    spec_parts_block(boundary, parts) + encode_utf8("--"@ + boundary + "--\r\n"@)
}

/// What `build` does to the headers: To/Cc/Bcc from the nonempty recipient
/// lists, then the Date stamp, then the Content-Type announcing the
/// multipart boundary.
pub open spec fn spec_build_headers(
    h0: Seq<SpecHeader>,
    to: Seq<MailBox>,
    cc: Seq<MailBox>,
    bc: Seq<MailBox>,
    boundary: Seq<char>,
    date: Seq<char>,
) -> Seq<SpecHeader> {
    let h1 = if to.len() > 0 {
        spec_set_header(h0, "To"@, spec_mail_list(to))
    } else {
        h0
    };
    let h2 = if cc.len() > 0 {
        spec_set_header(h1, "Cc"@, spec_mail_list(cc))
    } else {
        h1
    };
    let h3 = if bc.len() > 0 {
        spec_set_header(h2, "Bcc"@, spec_mail_list(bc))
    } else {
        h2
    };
    spec_set_header(
        spec_set_header(h3, "Date"@, date),
        "Content-Type"@,
        "multipart/mixed; boundary="@ + boundary,
    )
}

/// Relies on uuid's `new_v4` and the simple formatting: a freshly drawn
/// random identifier rendered as exactly 32 hexadecimal characters. The
/// value is random, so only its shape is promised.
#[verifier::external_body]
fn fresh_boundary() -> (r: String)
    ensures
        r@.len() == 32,
{
    uuid::Uuid::new_v4().simple().to_string()
}

/// Relies on chrono's `Local::now().to_rfc2822()`: the current wall-clock
/// time rendered per RFC 2822. The value depends on the clock, so nothing is
/// promised of the text.
#[verifier::external_body]
fn rfc2822_now() -> (r: String) {
    chrono::Local::now().to_rfc2822()
}

/// A message being composed: the sender and custom headers land in `data` at
/// once; recipient lists, the date, the content type and the multipart body
/// are rendered at `build`.
pub struct MailBuilder {
    pub data: MailData,
    pub to: Vec<MailBox>,
    pub cc: Vec<MailBox>,
    pub bc: Vec<MailBox>,
    pub body_parts: Vec<Vec<u8>>,
    pub boundary: String,
}

impl MailBuilder {
    /// A fresh builder with a random multipart boundary token.
    pub fn new() -> (r: MailBuilder)
        ensures
            r.data.headers_view() == Seq::<SpecHeader>::empty(),
            r.data.body@ == Seq::<u8>::empty(),
            r.to@ == Seq::<MailBox>::empty(),
            r.cc@ == Seq::<MailBox>::empty(),
            r.bc@ == Seq::<MailBox>::empty(),
            r.body_parts@ == Seq::<Vec<u8>>::empty(),
            r.boundary@.len() == 32,
    {
        let r = MailBuilder {
            data: MailData::new(),
            to: Vec::new(),
            cc: Vec::new(),
            bc: Vec::new(),
            body_parts: Vec::new(),
            boundary: fresh_boundary(),
        };
        proof {
            assert(r.to@ =~= Seq::<MailBox>::empty());
            assert(r.cc@ =~= Seq::<MailBox>::empty());
            assert(r.bc@ =~= Seq::<MailBox>::empty());
            assert(r.body_parts@ =~= Seq::<Vec<u8>>::empty());
        }
        r
    }

    /// Sets the `From` header to the rendered sender.
    pub fn from(self, addr: MailBox) -> (r: MailBuilder)
        ensures
            r.data.headers_view() == spec_set_header(
                self.data.headers_view(),
                "From"@,
                addr.spec_render(),
            ),
            r.data.body@ == self.data.body@,
            r.to@ == self.to@,
            r.cc@ == self.cc@,
            r.bc@ == self.bc@,
            r.body_parts@ == self.body_parts@,
            r.boundary == self.boundary,
    {
        let mut this = self;
        let rendered = addr.render();
        this.data.set_header(String::from_str("From"), rendered);
        this
    }

    /// Adds a `To` recipient.
    pub fn to(self, addr: MailBox) -> (r: MailBuilder)
        ensures
            r.to@ == self.to@.push(addr),
            r.data == self.data,
            r.cc@ == self.cc@,
            r.bc@ == self.bc@,
            r.body_parts@ == self.body_parts@,
            r.boundary == self.boundary,
    {
        let mut this = self;
        this.to.push(addr);
        this
    }

    /// Adds a `Cc` recipient.
    pub fn cc(self, addr: MailBox) -> (r: MailBuilder)
        ensures
            r.cc@ == self.cc@.push(addr),
            r.data == self.data,
            r.to@ == self.to@,
            r.bc@ == self.bc@,
            r.body_parts@ == self.body_parts@,
            r.boundary == self.boundary,
    {
        let mut this = self;
        this.cc.push(addr);
        this
    }

    /// Adds a `Bcc` recipient.
    pub fn bc(self, addr: MailBox) -> (r: MailBuilder)
        ensures
            r.bc@ == self.bc@.push(addr),
            r.data == self.data,
            r.to@ == self.to@,
            r.cc@ == self.cc@,
            r.body_parts@ == self.body_parts@,
            r.boundary == self.boundary,
    {
        let mut this = self;
        this.bc.push(addr);
        this
    }

    /// Sets the `Subject` header.
    pub fn subject(self, subject: String) -> (r: MailBuilder)
        ensures
            r.data.headers_view() == spec_set_header(
                self.data.headers_view(),
                "Subject"@,
                subject@,
            ),
            r.data.body@ == self.data.body@,
            r.to@ == self.to@,
            r.cc@ == self.cc@,
            r.bc@ == self.bc@,
            r.body_parts@ == self.body_parts@,
            r.boundary == self.boundary,
    {
        let mut this = self;
        this.data.set_header(String::from_str("Subject"), subject);
        this
    }

    /// Sets an arbitrary header.
    pub fn header(self, key: String, value: String) -> (r: MailBuilder)
        ensures
            r.data.headers_view() == spec_set_header(self.data.headers_view(), key@, value@),
            r.data.body@ == self.data.body@,
            r.to@ == self.to@,
            r.cc@ == self.cc@,
            r.bc@ == self.bc@,
            r.body_parts@ == self.body_parts@,
            r.boundary == self.boundary,
    {
        let mut this = self;
        this.data.set_header(key, value);
        this
    }

    /// Sets the `Message-ID` header to `<id>`.
    pub fn message_id(self, message_id: String) -> (r: MailBuilder)
        ensures
            r.data.headers_view() == spec_set_header(
                self.data.headers_view(),
                "Message-ID"@,
                "<"@ + message_id@ + ">"@,
            ),
            r.data.body@ == self.data.body@,
            r.to@ == self.to@,
            r.cc@ == self.cc@,
            r.bc@ == self.bc@,
            r.body_parts@ == self.body_parts@,
            r.boundary == self.boundary,
    {
        let mut this = self;
        let mut v = String::from_str("<");
        v.append(message_id.as_str());
        v.append(">");
        this.data.set_header(String::from_str("Message-ID"), v);
        this
    }

    /// Appends one body part.
    pub fn body(self, part: Vec<u8>) -> (r: MailBuilder)
        ensures
            r.body_parts@ == self.body_parts@.push(part),
            r.data == self.data,
            r.to@ == self.to@,
            r.cc@ == self.cc@,
            r.bc@ == self.bc@,
            r.boundary == self.boundary,
    {
        let mut this = self;
        this.body_parts.push(part);
        this
    }

    /// Finalizes the message: recipient lists become To/Cc/Bcc headers (each
    /// omitted when its list is empty), a Date header is stamped from the
    /// clock, the Content-Type announces the multipart boundary, and the
    /// parts are joined behind it.
    pub fn build(self) -> (r: MailData)
        ensures
            exists|date: Seq<char>|
                r.headers_view() == #[trigger] spec_build_headers(
                    self.data.headers_view(),
                    self.to@,
                    self.cc@,
                    self.bc@,
                    self.boundary@,
                    date,
                ),
            r.body@ == spec_multipart_body(
                self.boundary@,
                self.body_parts@.map_values(|p: Vec<u8>| p@),
            ),
    {
        let mut this = self;
        let ghost h0 = this.data.headers_view();
        if this.to.len() > 0 {
            let list = into_mail_list(&this.to);
            this.data.set_header(String::from_str("To"), list);
        }
        let ghost h1 = this.data.headers_view();
        if this.cc.len() > 0 {
            let list = into_mail_list(&this.cc);
            this.data.set_header(String::from_str("Cc"), list);
        }
        let ghost h2 = this.data.headers_view();
        if this.bc.len() > 0 {
            let list = into_mail_list(&this.bc);
            this.data.set_header(String::from_str("Bcc"), list);
        }
        let ghost h3 = this.data.headers_view();
        let date = rfc2822_now();
        let ghost gdate = date@;
        this.data.set_header(String::from_str("Date"), date);
        let ghost h4 = this.data.headers_view();
        let mut ct = String::from_str("multipart/mixed; boundary=");
        ct.append(this.boundary.as_str());
        proof {
            assert(ct@ =~= "multipart/mixed; boundary="@ + this.boundary@);
        }
        this.data.set_header(String::from_str("Content-Type"), ct);
        proof {
            assert(this.data.headers_view() == spec_build_headers(
                self.data.headers_view(),
                self.to@,
                self.cc@,
                self.bc@,
                self.boundary@,
                gdate,
            ));
        }

        let ghost pv = this.body_parts@.map_values(|p: Vec<u8>| p@);
        let mut delim = String::from_str("--");
        delim.append(this.boundary.as_str());
        delim.append("\r\n");
        let mut terminator = String::from_str("--");
        terminator.append(this.boundary.as_str());
        terminator.append("--\r\n");

        let mut buffer: Vec<u8> = Vec::new();
        let n = this.body_parts.len();
        let mut i: usize = 0;
        proof {
            assert(pv.take(0) =~= Seq::<Seq<u8>>::empty());
            assert(buffer@ =~= spec_parts_block(this.boundary@, pv.take(0)));
        }
        while i < n
            invariant
                n == this.body_parts@.len(),
                pv == this.body_parts@.map_values(|p: Vec<u8>| p@),
                delim@ == "--"@ + this.boundary@ + "\r\n"@,
                i <= n,
                buffer@ == spec_parts_block(this.boundary@, pv.take(i as int)),
            decreases n - i,
        {
            buffer.extend_from_slice(delim.as_str().as_bytes());
            buffer.extend_from_slice(this.body_parts[i].as_slice());
            proof {
                assert(pv.take(i + 1).drop_last() =~= pv.take(i as int));
                assert(pv.take(i + 1).last() == pv[i as int]);
            }
            i = i + 1;
        }
        proof {
            assert(pv.take(n as int) =~= pv);
        }
        buffer.extend_from_slice(terminator.as_str().as_bytes());
        this.data.body = buffer;
        proof {
            assert(this.data.body@ =~= spec_multipart_body(this.boundary@, pv));
        }
        this.data
    }
}

} // verus!

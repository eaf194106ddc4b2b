//! MIME body parts: a content type, a transfer encoding, and raw bytes,
//! serialized as the two announcement lines, a blank line, the body, and a
//! trailing blank line.
use crate::extension::{find_char, lemma_find_char, spec_split_char, split_char};
use vstd::prelude::*;
use vstd::string::*;
use vstd::utf8::encode_utf8;

verus! {

/// The transfer encodings a part can announce.
#[derive(Clone, Copy, PartialEq, Eq, Structural, Debug)]
pub enum ContentTypeEncoding {
    _7Bit,
    _8Bit,
    Binary,
    QuotedPrintable,
    Base64,
    IetfToken,
    XToken,
}

impl ContentTypeEncoding {
    /// The encoding's announcement text.
    pub open spec fn spec_str(&self) -> Seq<char> {
        match self {
            ContentTypeEncoding::_7Bit => "7bit"@,
            ContentTypeEncoding::_8Bit => "8bit"@,
            ContentTypeEncoding::Base64 => "base64"@,
            ContentTypeEncoding::Binary => "binary"@,
            ContentTypeEncoding::QuotedPrintable => "quoted-printable"@,
            ContentTypeEncoding::IetfToken => "ietf-token"@,
            ContentTypeEncoding::XToken => "x-token"@,
        }
    }

    /// Renders the encoding for its announcement line.
    pub fn encoding_str(&self) -> (r: &'static str)
        ensures
            r@ == self.spec_str(),
    {
        match self {
            ContentTypeEncoding::_7Bit => "7bit",
            ContentTypeEncoding::_8Bit => "8bit",
            ContentTypeEncoding::Base64 => "base64",
            ContentTypeEncoding::Binary => "binary",
            ContentTypeEncoding::QuotedPrintable => "quoted-printable",
            ContentTypeEncoding::IetfToken => "ietf-token",
            ContentTypeEncoding::XToken => "x-token",
        }
    }
}

impl Default for ContentTypeEncoding {
    /// Seven-bit text unless something else is asked for.
    fn default() -> (r: ContentTypeEncoding)
        ensures
            r is _7Bit,
    {
        ContentTypeEncoding::_7Bit
    }
}

/// A parsed content type: the type before the first `/`, the subtype up to
/// the next, and whatever further `/`-separated pieces follow as parameters.
pub struct ContentType {
    pub _type: String,
    pub sub_type: String,
    pub parameters: Vec<String>,
}

/// The parameters rendered as a `;`-joined tail (empty when there are none).
pub open spec fn spec_join_semi(ps: Seq<Seq<char>>) -> Seq<char>
    decreases ps.len(),
{
    if ps.len() == 0 {
        Seq::empty()
    } else if ps.len() == 1 {
        ps[0]
    } else {
        spec_join_semi(ps.drop_last()) + ";"@ + ps.last()
    }
}

impl ContentType {
    /// `type/subtype` followed directly by the joined parameters, as the
    /// announcement line carries it.
    pub open spec fn spec_render(&self) -> Seq<char> {
        self._type@ + "/"@ + self.sub_type@ + spec_join_semi(
            self.parameters@.map_values(|s: String| s@),
        )
    }

    /// Reads `type/subtype[/param...]`. A text without `/` names no valid
    /// content type and is left out by precondition.
    pub fn from_text(content_type: &str) -> (r: ContentType)
        requires
            find_char(content_type@, '/') >= 0,
        ensures
            ({
                let i = find_char(content_type@, '/');
                let rest = spec_split_char(content_type@.skip(i + 1), '/');
                r._type@ == content_type@.take(i) && r.sub_type@ == rest[0]
                    && r.parameters@.map_values(|s: String| s@) == rest.skip(1)
            }),
    {
        let n = content_type.unicode_len();
        let mut i: usize = 0;
        proof {
            lemma_find_char(content_type@, '/');
        }
        let ghost fi = find_char(content_type@, '/');
        while i < n
            invariant
                n == content_type@.len(),
                fi == find_char(content_type@, '/'),
                0 <= fi < n,
                i <= fi,
                content_type@[fi] == '/',
                forall|j: int| 0 <= j < fi ==> content_type@[j] != '/',
            decreases n - i,
        {
            if content_type.get_char(i) == '/' {
                let left = content_type.substring_char(0, i).to_owned();
                let right = content_type.substring_char(i + 1, n);
                let mut tokens = split_char(right, '/');
                proof {
                    assert(i == fi);
                    assert(right@ =~= content_type@.skip(fi + 1));
                    assert(spec_split_char(right@, '/').len() >= 1) by {
                        let t = right@;
                        if find_char(t, '/') < 0 {
                        } else {
                        }
                    }
                    assert(tokens@.map_values(|s: String| s@)[0] == spec_split_char(right@, '/')[0]);
                }
                let sub_type = tokens.remove(0);
                proof {
                    assert(tokens@.map_values(|s: String| s@) =~= spec_split_char(
                        right@,
                        '/',
                    ).skip(1));
                }
                return ContentType { _type: left, sub_type, parameters: tokens };
            }
            i = i + 1;
        }
        proof {
            assert(fi < n);
            assert(false);
        }
        vstd::pervasive::unreached()
    }

    /// Renders the announcement line's content-type field.
    pub fn render(&self) -> (r: String)
        ensures
            r@ == self.spec_render(),
    {
        let ghost pv = self.parameters@.map_values(|s: String| s@);
        let mut out = self._type.clone();
        out.append("/");
        out.append(self.sub_type.as_str());
        let mut joined = String::new();
        let n = self.parameters.len();
        let mut i: usize = 0;
        proof {
            assert(pv.take(0) =~= Seq::<Seq<char>>::empty());
            assert(joined@ =~= spec_join_semi(pv.take(0)));
        }
        while i < n
            invariant
                n == self.parameters@.len(),
                pv == self.parameters@.map_values(|s: String| s@),
                i <= n,
                joined@ == spec_join_semi(pv.take(i as int)),
            decreases n - i,
        {
            if i > 0 {
                joined.append(";");
            }
            joined.append(self.parameters[i].as_str());
            proof {
                assert(pv.take(i + 1).drop_last() =~= pv.take(i as int));
                assert(pv.take(i + 1).last() == pv[i as int]);
                if i == 0 {
                    assert(pv.take(1).len() == 1);
                    assert(pv.take(1)[0] == pv[0]);
                }
            }
            i = i + 1;
        }
        proof {
            assert(pv.take(n as int) =~= pv);
        }
        out.append(joined.as_str());
        out
    }
}

impl Default for ContentType {
    /// Plain text.
    fn default() -> (r: ContentType)
        ensures
            r._type@ == "text"@,
            r.sub_type@ == "plain"@,
            r.parameters@.len() == 0,
    {
        ContentType {
            _type: String::from_str("text"),
            sub_type: String::from_str("plain"),
            parameters: Vec::new(),
        }
    }
}

/// One MIME body part.
pub struct MIMEBody {
    pub content_type: ContentType,
    pub content_type_encoding: ContentTypeEncoding,
    pub body: Vec<u8>,
}

/// A part's serialized form: the content-type field, CRLF, the encoding
/// field, CRLF CRLF, the body, CRLF CRLF.
pub open spec fn spec_mime_bytes(
    ct: Seq<char>,
    enc: Seq<char>,
    body: Seq<u8>,
) -> Seq<u8> {
    encode_utf8(ct) + seq![13u8, 10u8] + encode_utf8(enc) + seq![13u8, 10u8, 13u8, 10u8] + body
        + seq![13u8, 10u8, 13u8, 10u8]
}

impl MIMEBody {
    /// An empty seven-bit part of the given content type (which must hold a
    /// `/`, as every `type/subtype` text does).
    pub fn new(content_type: &str) -> (r: MIMEBody)
        requires
            find_char(content_type@, '/') >= 0,
        ensures
            ({
                let i = find_char(content_type@, '/');
                let rest = spec_split_char(content_type@.skip(i + 1), '/');
                r.content_type._type@ == content_type@.take(i) && r.content_type.sub_type@
                    == rest[0] && r.content_type.parameters@.map_values(|s: String| s@)
                    == rest.skip(1)
            }),
            r.content_type_encoding is _7Bit,
            r.body@ == Seq::<u8>::empty(),
    {
        MIMEBody {
            content_type: ContentType::from_text(content_type),
            content_type_encoding: ContentTypeEncoding::_7Bit,
            body: Vec::new(),
        }
    }

    /// Replaces the body with a text.
    pub fn text(self, text: &str) -> (r: MIMEBody)
        ensures
            r.content_type == self.content_type,
            r.content_type_encoding == self.content_type_encoding,
            r.body@ == encode_utf8(text@),
    {
        let mut this = self;
        this.body = text.as_bytes_vec();
        this
    }

    /// Replaces the body with a copy of raw bytes.
    pub fn copy_from_slice(&mut self, data: &[u8])
        ensures
            final(self).content_type == old(self).content_type,
            final(self).content_type_encoding == old(self).content_type_encoding,
            final(self).body@ == data@,
    {
        self.body = vstd::slice::slice_to_vec(data);
    }

    /// Announces a different transfer encoding.
    pub fn set_encoding(&mut self, encoding: ContentTypeEncoding)
        ensures
            final(self).content_type == old(self).content_type,
            final(self).body == old(self).body,
            final(self).content_type_encoding == encoding,
    {
        self.content_type_encoding = encoding;
    }

    /// Serializes the part.
    pub fn into_bytes(self) -> (r: Vec<u8>)
        ensures
            r@ == spec_mime_bytes(
                self.content_type.spec_render(),
                self.content_type_encoding.spec_str(),
                self.body@,
            ),
    {
        let mut out: Vec<u8> = Vec::new();
        let ct = self.content_type.render();
        out.extend_from_slice(ct.as_str().as_bytes());
        out.push(13);
        out.push(10);
        out.extend_from_slice(self.content_type_encoding.encoding_str().as_bytes());
        out.push(13);
        out.push(10);
        out.push(13);
        out.push(10);
        out.extend_from_slice(self.body.as_slice());
        out.push(13);
        out.push(10);
        out.push(13);
        out.push(10);
        proof {
            assert(out@ =~= spec_mime_bytes(
                self.content_type.spec_render(),
                self.content_type_encoding.spec_str(),
                self.body@,
            ));
        }
        out
    }
}

} // verus!

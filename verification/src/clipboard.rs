//! What a copy looks like on the wire.

use crate::seqs::{first, lemma_first_step};
use crate::text::same;
use vstd::prelude::*;

verus! {

/// Marker in every clipboard packet.
pub const CLIPBOARD_PROTOCOL: &'static str = "mykvm.clipboard.v1";

/// The kind of a plain text format.
pub const PLAIN_TEXT: &'static str = "plainText";

/// An image copy, its pixels in base64.
#[derive(Debug)]
pub struct ClipboardImage {
    pub width: u32,
    pub height: u32,
    pub rgba_base64: String,
}

pub struct ClipboardImageView {
    pub width: u32,
    pub height: u32,
    pub rgba_base64: Seq<char>,
}

impl View for ClipboardImage {
    type V = ClipboardImageView;

    open spec fn view(&self) -> ClipboardImageView {
        ClipboardImageView {
            width: self.width,
            height: self.height,
            rgba_base64: self.rgba_base64@,
        }
    }
}

pub open spec fn image_view(image: Option<ClipboardImage>) -> Option<ClipboardImageView> {
    match image {
        Some(image) => Some(image@),
        None => None,
    }
}

/// One representation of the copied content. Receivers pick what they can use.
#[derive(Debug)]
pub struct ClipboardFormat {
    pub kind: String,
    pub text: String,
    pub image: Option<ClipboardImage>,
}

pub struct ClipboardFormatView {
    pub kind: Seq<char>,
    pub text: Seq<char>,
    pub image: Option<ClipboardImageView>,
}

impl View for ClipboardFormat {
    type V = ClipboardFormatView;

    open spec fn view(&self) -> ClipboardFormatView {
        ClipboardFormatView {
            kind: self.kind@,
            text: self.text@,
            image: image_view(self.image),
        }
    }
}

/// A copy travelling between peers.
///
/// `signature` is a fingerprint of the content: it is how a receiver recognises
/// its own copy coming back. Authorisation rides on `cluster_id` and
/// `pair_secret`, with `origin_transport_public_key` as the stable identity.
#[derive(Debug)]
pub struct ClipboardPacket {
    pub protocol: String,
    pub origin_id: String,
    pub origin_transport_public_key: String,
    pub target_id: String,
    pub cluster_id: String,
    pub pair_secret: String,
    pub signature: String,
    pub formats: Vec<ClipboardFormat>,
    pub text: String,
    pub image: Option<ClipboardImage>,
    pub sequence: u64,
}

pub struct ClipboardPacketView {
    pub protocol: Seq<char>,
    pub origin_id: Seq<char>,
    pub origin_transport_public_key: Seq<char>,
    pub target_id: Seq<char>,
    pub cluster_id: Seq<char>,
    pub pair_secret: Seq<char>,
    pub signature: Seq<char>,
    pub formats: Seq<ClipboardFormatView>,
    pub text: Seq<char>,
    pub image: Option<ClipboardImageView>,
    pub sequence: u64,
}

pub open spec fn format_views(v: Seq<ClipboardFormat>) -> Seq<ClipboardFormatView> {
    v.map_values(|format: ClipboardFormat| format@)
}

impl View for ClipboardPacket {
    type V = ClipboardPacketView;

    open spec fn view(&self) -> ClipboardPacketView {
        ClipboardPacketView {
            protocol: self.protocol@,
            origin_id: self.origin_id@,
            origin_transport_public_key: self.origin_transport_public_key@,
            target_id: self.target_id@,
            cluster_id: self.cluster_id@,
            pair_secret: self.pair_secret@,
            signature: self.signature@,
            formats: format_views(self.formats@),
            text: self.text@,
            image: image_view(self.image),
            sequence: self.sequence,
        }
    }
}

/// Whether a format holds plain text.
pub open spec fn holds_plain_text() -> spec_fn(ClipboardFormatView) -> bool {
    |format: ClipboardFormatView| format.kind == PLAIN_TEXT@ && format.text.len() > 0
}

/// The fingerprint of a text copy.
pub open spec fn text_signature(text: Seq<char>) -> Seq<char> {
    "text:"@ + text
}

impl ClipboardPacketView {
    /// A copy of plain text, for whoever it reaches.
    pub open spec fn of_text(
        text: Seq<char>,
        origin_id: Seq<char>,
        origin_transport_public_key: Seq<char>,
        cluster_id: Seq<char>,
        pair_secret: Seq<char>,
        sequence: u64,
    ) -> ClipboardPacketView {
        ClipboardPacketView {
            protocol: CLIPBOARD_PROTOCOL@,
            origin_id,
            origin_transport_public_key,
            target_id: seq![],
            cluster_id,
            pair_secret,
            signature: text_signature(text),
            formats: seq![ClipboardFormatView { kind: PLAIN_TEXT@, text, image: None }],
            text,
            image: None,
            sequence,
        }
    }

    /// The text of a copy: that of the packet itself, or else that of its first
    /// plain text format.
    pub open spec fn read_text(self) -> Option<Seq<char>> {
        if self.text.len() > 0 {
            Some(self.text)
        } else {
            match first(self.formats, holds_plain_text()) {
                Some(format) => Some(format.text),
                None => None,
            }
        }
    }
}

impl ClipboardPacket {
    /// Builds a text copy. The signature depends on the content alone, so an
    /// echo is recognised on either side.
    pub fn text(
        text: String,
        origin_id: String,
        origin_transport_public_key: String,
        cluster_id: String,
        pair_secret: String,
        sequence: u64,
    ) -> (r: ClipboardPacket)
        ensures
            r@ == ClipboardPacketView::of_text(
                text@,
                origin_id@,
                origin_transport_public_key@,
                cluster_id@,
                pair_secret@,
                sequence,
            ),
    {
        let mut signature = "text:".to_string();
        signature.append(text.as_str());
        let format = ClipboardFormat {
            kind: PLAIN_TEXT.to_string(),
            text: text.clone(),
            image: None,
        };
        let mut formats: Vec<ClipboardFormat> = Vec::new();
        formats.push(format);
        proof {
            assert(format_views(formats@) =~= seq![
                ClipboardFormatView { kind: PLAIN_TEXT@, text: text@, image: None },
            ]);
        }
        let target_id = String::new();
        assert(target_id@ =~= seq![]);
        ClipboardPacket {
            protocol: CLIPBOARD_PROTOCOL.to_string(),
            origin_id,
            origin_transport_public_key,
            target_id,
            cluster_id,
            pair_secret,
            signature,
            formats,
            text,
            image: None,
            sequence,
        }
    }

    /// The text in this packet.
    pub fn plain_text(&self) -> (r: Option<&str>)
        ensures
            match r {
                Some(text) => self@.read_text() == Some(text@),
                None => self@.read_text() is None,
            },
    {
        if !self.text.as_str().is_empty() {
            return Some(self.text.as_str());
        }
        let ghost all = format_views(self.formats@);
        let mut i: usize = 0;
        assert(all.skip(0) =~= all);
        while i < self.formats.len()
            invariant
                all == format_views(self.formats@),
                self@.text.len() == 0,
                i <= self.formats.len(),
                first(all, holds_plain_text()) == first(all.skip(i as int), holds_plain_text()),
            decreases self.formats.len() - i,
        {
            proof {
                lemma_first_step(all, holds_plain_text(), i as int);
            }
            let format = &self.formats[i];
            if same(format.kind.as_str(), PLAIN_TEXT) && !format.text.as_str().is_empty() {
                return Some(format.text.as_str());
            }
            i = i + 1;
        }
        None
    }
}

/// A text copy can be read back, also by way of its formats where the packet's
/// own text is missing.
pub proof fn law_a_text_copy_reads_back(
    text: Seq<char>,
    origin_id: Seq<char>,
    key: Seq<char>,
    cluster_id: Seq<char>,
    pair_secret: Seq<char>,
    sequence: u64,
)
    requires
        text.len() > 0,
    ensures
        ({
            let packet = ClipboardPacketView::of_text(
                text,
                origin_id,
                key,
                cluster_id,
                pair_secret,
                sequence,
            );
            let formats_only = ClipboardPacketView { text: seq![], ..packet };
            packet.read_text() == Some(text) && formats_only.read_text() == Some(text)
        }),
{
}

/// Two text copies carry the same signature exactly when they carry the same
/// text.
pub proof fn law_signatures_tell_texts_apart(x: Seq<char>, y: Seq<char>)
    ensures
        text_signature(x) == text_signature(y) <==> x == y,
{
    let length = "text:"@.len() as int;
    assert(text_signature(x).skip(length) =~= x);
    assert(text_signature(y).skip(length) =~= y);
}

} // verus!

//! Scroll position kept between runs, tied to a fingerprint of the content it
//! was computed for, and the render step that reads and advances it.

use vstd::prelude::*;
use crate::composite::{build_composite, composite, ColorTable, InstrumentResult};
use crate::markup::glyphs_of;
use crate::record::{decimal, decode_position, encode_position, law_position_round_trip, parse_position};
use crate::window::{render_glyphs, window_glyphs, RenderError};
use sha2::{Digest, Sha256};

verus! {

/// A saved scroll position and the fingerprint of the content it belongs to.
#[derive(Debug)]
pub struct ScrollState {
    pub position: usize,
    pub fingerprint: String,
}

/// The scroll state store: at most one saved record.
#[derive(Debug)]
pub struct ScrollStore {
    pub saved: Option<ScrollState>,
}

/// A saved record as a position and a fingerprint.
pub open spec fn record_view(s: Option<ScrollState>) -> Option<(nat, Seq<char>)> {
    match s {
        Some(r) => Some((r.position as nat, r.fingerprint@)),
        None => None,
    }
}

/// The position to resume from: the saved one if it was saved for the same
/// fingerprint and still lies within the content, else 0.
pub open spec fn resume_position(saved: Option<(nat, Seq<char>)>, fp: Seq<char>, len: nat) -> nat {
    match saved {
        Some((p, f)) => if f == fp && p < len {
            p
        } else {
            0
        },
        None => 0,
    }
}

/// A saved record as read back from its position and fingerprint records.
pub open spec fn records_view(position_text: Seq<char>, fingerprint_text: Seq<char>) -> Option<
    (nat, Seq<char>),
> {
    match parse_position(position_text) {
        Some(p) => Some((p, fingerprint_text)),
        None => None,
    }
}

impl ScrollStore {
    pub open spec fn view_record(&self) -> Option<(nat, Seq<char>)> {
        record_view(self.saved)
    }

    /// A store with nothing saved.
    pub fn new() -> (r: ScrollStore)
        ensures
            r.view_record() is None,
    {
        ScrollStore { saved: None }
    }

    /// The store as read back from its two persisted records; a position
    /// record that does not read as a number leaves nothing saved.
    pub fn from_records(position_text: &str, fingerprint_text: &str) -> (r: ScrollStore)
        ensures
            r.view_record() == records_view(position_text@, fingerprint_text@),
    {
        match decode_position(position_text) {
            Some(position) => ScrollStore {
                saved: Some(ScrollState { position, fingerprint: String::from_str(fingerprint_text) }),
            },
            None => ScrollStore { saved: None },
        }
    }

    /// The record that persists the saved position, if one is saved.
    pub fn position_record(&self) -> (r: Option<String>)
        ensures
            match r {
                Some(t) => self.saved matches Some(st) && t@ == decimal(st.position as nat),
                None => self.saved is None,
            },
    {
        match &self.saved {
            Some(st) => Some(encode_position(st.position)),
            None => None,
        }
    }

    /// Saves a position with the fingerprint of its content, replacing any record.
    pub fn save(&mut self, position: usize, fingerprint: &str)
        ensures
            final(self).view_record() == Some((position as nat, fingerprint@)),
    {
        self.saved = Some(ScrollState { position, fingerprint: String::from_str(fingerprint) });
    }

    /// The position to resume from for content of this fingerprint and visible length.
    pub fn load(&self, fingerprint: &str, plain_len: usize) -> (r: usize)
        ensures
            r as nat == resume_position(self.view_record(), fingerprint@, plain_len as nat),
    {
        match &self.saved {
            Some(rec) => {
                let wanted = String::from_str(fingerprint);
                if rec.fingerprint.eq(&wanted) && rec.position < plain_len {
                    rec.position
                } else {
                    0
                }
            },
            None => 0,
        }
    }
}

/// Law: loading with the fingerprint just saved gives back the saved position,
/// provided it lies within the content.
pub proof fn law_load_after_save(pos: nat, fp: Seq<char>, len: nat)
    requires
        pos < len,
    ensures
        resume_position(Some((pos, fp)), fp, len) == pos,
{
}

/// Law: a position saved, written out as its two records and read back,
/// loads as itself with the same fingerprint, provided it lies within the content.
pub proof fn law_load_after_save_through_records(pos: usize, fp: Seq<char>, len: nat)
    requires
        pos < len,
    ensures
        resume_position(records_view(decimal(pos as nat), fp), fp, len) == pos,
{
    law_position_round_trip(pos);
}

/// Law: loading with any other fingerprint than the one saved gives 0.
pub proof fn law_reset_on_change(pos: nat, fp: Seq<char>, fp2: Seq<char>, len: nat)
    requires
        fp2 != fp,
    ensures
        resume_position(Some((pos, fp)), fp2, len) == 0,
{
}

/// The position after `p` in content of visible length `len`, wrapping round.
pub open spec fn next_position(p: nat, len: nat) -> nat {
    if p + 1 >= len {
        0
    } else {
        p + 1
    }
}

/// One render of the ticker: resumes from the stored position (or 0), renders
/// `width` visible characters from there, and stores the next position with
/// the content's fingerprint. Fails, leaving the store as it was, where the
/// content has no visible character.
pub fn advance_ticker(full: &str, fingerprint: &str, store: &mut ScrollStore, width: usize) -> (r:
    Result<String, RenderError>)
    ensures
        ({
            let gs = glyphs_of(full@);
            let p = resume_position(old(store).view_record(), fingerprint@, gs.len());
            match r {
                Ok(out) => {
                    &&& gs.len() > 0
                    &&& out@ == render_glyphs(window_glyphs(gs, p as int, width as int))
                    &&& final(store).view_record() == Some(
                        (next_position(p, gs.len()), fingerprint@),
                    )
                },
                Err(e) => {
                    &&& gs.len() == 0
                    &&& e == RenderError::EmptyContent
                    &&& final(store).view_record() == old(store).view_record()
                },
            }
        }),
{
    let map = crate::indexer::index_markup(full);
    let len = map.glyphs.len();
    if len == 0 {
        return Err(RenderError::EmptyContent);
    }
    let p = store.load(fingerprint, len);
    let out = crate::window::render_window(&map.glyphs, p, width);
    let next = if p + 1 >= len {
        0
    } else {
        p + 1
    };
    store.save(next, fingerprint);
    Ok(out)
}

/// Names the SHA-256 digest of a text's UTF-8 bytes, in lower-case hex.
pub uninterp spec fn sha256_hex(s: Seq<char>) -> Seq<char>;

/// Relies on `sha2::Sha256::digest` over the UTF-8 bytes of `s`, formatted in
/// lower-case hex by the digest's `LowerHex`: a function of the text alone.
#[verifier::external_body]
fn content_fingerprint(s: &str) -> (r: String)
    ensures
        r@ == sha256_hex(s@),
{
    format!("{:x}", Sha256::digest(s.as_bytes()))
}

/// Builds the composite text of the instruments, fingerprints it, and renders
/// one step of the scrolling ticker from it.
pub fn render_ticker(
    items: &Vec<InstrumentResult>,
    table: &ColorTable,
    sep: &str,
    store: &mut ScrollStore,
    width: usize,
) -> (r: Result<String, RenderError>)
    ensures
        ({
            let full = composite(items@, *table, sep@);
            let fp = sha256_hex(full);
            let gs = glyphs_of(full);
            let p = resume_position(old(store).view_record(), fp, gs.len());
            match r {
                Ok(out) => {
                    &&& items@.len() > 0
                    &&& gs.len() > 0
                    &&& out@ == render_glyphs(window_glyphs(gs, p as int, width as int))
                    &&& final(store).view_record() == Some((next_position(p, gs.len()), fp))
                },
                Err(e) => {
                    &&& final(store).view_record() == old(store).view_record()
                    &&& (e == RenderError::EmptyInput <==> items@.len() == 0)
                    &&& (e == RenderError::EmptyContent <==> (items@.len() > 0 && gs.len() == 0))
                },
            }
        }),
{
    let full = match build_composite(items, table, sep) {
        Ok(s) => s,
        Err(e) => return Err(e),
    };
    let fp = content_fingerprint(full.as_str());
    advance_ticker(full.as_str(), fp.as_str(), store, width)
}

} // verus!

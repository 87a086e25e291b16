//! Playlist resolution: playlist text to fetchable URIs.
//!
//! A streaming URI may point at a master playlist that lists variant
//! streams, or directly at a media playlist that lists segments; resolution
//! picks the first variant with a usable URI. The playlist grammar itself is
//! parsed by an outside parser; everything decided on the parsed values is
//! verified here.

use vstd::prelude::*;

use crate::errors::PlaylistError;
use crate::repository::string_views;

verus! {

/// A parsed playlist, reduced to what resolution reads: which kind it is,
/// and its URIs — variant-stream URIs of a master playlist, segment URIs of
/// a media playlist — in order.
pub enum ParsedPlaylist {
    /// A master playlist's variant-stream URIs.
    Master(Vec<String>),
    /// A media playlist's segment URIs.
    Media(Vec<String>),
}

/// The plain values of a parsed playlist: whether it is a master playlist,
/// and its URIs.
pub open spec fn playlist_view(p: ParsedPlaylist) -> (bool, Seq<Seq<char>>) {
    match p {
        ParsedPlaylist::Master(v) => (true, string_views(v@)),
        ParsedPlaylist::Media(v) => (false, string_views(v@)),
    }
}

/// What the playlist parser makes of a byte buffer — nothing when the bytes
/// are not a playlist; it decides from the bytes alone.
pub uninterp spec fn playlist_of(bytes: Seq<u8>) -> Option<(bool, Seq<Seq<char>>)>;

/// Relies on m3u8_rs::parse_playlist_res: parsing depends on the bytes
/// alone; a master playlist carries its variant streams and a media playlist
/// its segments, each in order.
#[verifier::external_body]
fn parse_playlist(bytes: &Vec<u8>) -> (r: Option<ParsedPlaylist>)
    ensures
        r matches Some(p) ==> playlist_of(bytes@) == Some(playlist_view(p)),
        r is None ==> playlist_of(bytes@) is None,
{
    match m3u8_rs::parse_playlist_res(bytes.as_slice()) {
        Ok(m3u8_rs::Playlist::MasterPlaylist(pl)) => {
            Some(ParsedPlaylist::Master(pl.variants.into_iter().map(|v| v.uri).collect()))
        },
        Ok(m3u8_rs::Playlist::MediaPlaylist(pl)) => {
            Some(ParsedPlaylist::Media(pl.segments.into_iter().map(|s| s.uri).collect()))
        },
        Err(_) => None,
    }
}

/// The first variant URI that is not empty, if any.
pub open spec fn first_usable(vs: Seq<Seq<char>>) -> Option<Seq<char>>
    decreases vs.len(),
{
    if vs.len() == 0 {
        Option::None
    } else if vs[0].len() > 0 {
        Option::Some(vs[0])
    } else {
        first_usable(vs.drop_first())
    }
}

/// Chooses the URI of the first variant stream that carries one; a playlist
/// whose variants all lack URIs has no usable variant, and exactly then an
/// error comes back.
pub fn find_uri(variants: &Vec<String>) -> (r: Result<String, PlaylistError>)
    ensures
        match r {
            Ok(u) => first_usable(string_views(variants@)) == Some(u@),
            Err(e) => e == PlaylistError::NoUsableVariant && first_usable(
                string_views(variants@),
            ) is None,
        },
{
    let ghost sv = string_views(variants@);
    proof {
        assert(sv.skip(0) =~= sv);
    }
    let mut i: usize = 0;
    while i < variants.len()
        invariant
            i <= variants@.len(),
            sv == string_views(variants@),
            sv.len() == variants@.len(),
            first_usable(sv) == first_usable(sv.skip(i as int)),
        decreases variants@.len() - i,
    {
        proof {
            assert(sv.skip(i as int)[0] == sv[i as int]);
            assert(sv[i as int] == variants@[i as int]@);
            assert(sv.skip(i as int).drop_first() =~= sv.skip(i as int + 1));
        }
        if !variants[i].as_str().is_empty() {
            return Ok(variants[i].clone());
        }
        i += 1;
    }
    proof {
        assert(sv.skip(sv.len() as int).len() == 0);
    }
    Err(PlaylistError::NoUsableVariant)
}

/// Resolves master playlist text to the first usable variant URI: the bytes
/// must parse as a master playlist, and some variant must carry a URI; each
/// failure names its error.
pub fn resolve_master_playlist(bytes: &Vec<u8>) -> (r: Result<String, PlaylistError>)
    ensures
        match r {
            Ok(u) => playlist_of(bytes@) matches Some(p) && p.0 && first_usable(p.1) == Some(
                u@,
            ),
            Err(e) => {
                ||| e == PlaylistError::WrongFormat && (playlist_of(bytes@) is None || (
                playlist_of(bytes@) matches Some(p) && !p.0))
                ||| e == PlaylistError::NoUsableVariant && (playlist_of(bytes@) matches Some(p)
                    && p.0 && first_usable(p.1) is None)
            },
        },
{
    match parse_playlist(bytes) {
        Some(ParsedPlaylist::Master(variants)) => find_uri(&variants),
        Some(ParsedPlaylist::Media(_)) => Err(PlaylistError::WrongFormat),
        None => Err(PlaylistError::WrongFormat),
    }
}

/// Reads media playlist text into its ordered segment URIs; text that does
/// not parse as a media playlist is rejected, exactly then.
pub fn resolve_media_playlist(bytes: &Vec<u8>) -> (r: Result<Vec<String>, PlaylistError>)
    ensures
        match r {
            Ok(segs) => playlist_of(bytes@) == Some((false, string_views(segs@))),
            Err(e) => e == PlaylistError::WrongFormat && (playlist_of(bytes@) is None || (
            playlist_of(bytes@) matches Some(p) && p.0)),
        },
{
    match parse_playlist(bytes) {
        Some(ParsedPlaylist::Media(segments)) => Ok(segments),
        Some(ParsedPlaylist::Master(_)) => Err(PlaylistError::WrongFormat),
        None => Err(PlaylistError::WrongFormat),
    }
}

} // verus!

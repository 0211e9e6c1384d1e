//! What is read of a media file before frames arrive: the resolution of its
//! video stream.

use crate::img_dimensions::ImgDimensions;
use vstd::prelude::*;

verus! {

/// Info about the media in the given file.
#[derive(Debug, Clone, Copy, PartialEq, Eq, Structural)]
pub struct FileInfo {
    pub width: i32,
    pub height: i32,
}

/// One field of a stream's capabilities, as far as the resolution goes.
#[derive(Debug, Clone, Copy, PartialEq, Eq, Structural)]
pub enum CapsField {
    Width(i32),
    Height(i32),
    Other,
}

/// Why no resolution was found.
#[derive(Debug, Clone, Copy, PartialEq, Eq, Structural)]
pub enum DiscoveryError {
    /// No stream names both a width and a height.
    NoResolution,
}

/// The width and height known after the first `upto` fields; the scan
/// stops as soon as both are known, and a later value replaces an earlier
/// one until then.
pub open spec fn scanned(fields: Seq<CapsField>, upto: nat) -> (Option<i32>, Option<i32>)
    decreases upto,
{
    if upto == 0 {
        (None, None)
    } else {
        let before = scanned(fields, (upto - 1) as nat);
        if before.0 is Some && before.1 is Some {
            before
        } else {
            match fields[upto - 1] {
                CapsField::Width(w) => (Some(w), before.1),
                CapsField::Height(h) => (before.0, Some(h)),
                CapsField::Other => before,
            }
        }
    }
}

/// The resolution that the fields of one stream give, if they give one.
pub open spec fn stream_resolution(fields: Seq<CapsField>) -> Option<FileInfo> {
    let found = scanned(fields, fields.len());
    if found.0 is Some && found.1 is Some {
        Some(FileInfo { width: found.0->0, height: found.1->0 })
    } else {
        None
    }
}

/// The resolution of the first stream that gives one.
pub open spec fn first_resolution(streams: Seq<Vec<CapsField>>) -> Option<FileInfo>
    decreases streams.len(),
{
    if streams.len() == 0 {
        None
    } else {
        match first_resolution(streams.drop_last()) {
            Some(info) => Some(info),
            None => stream_resolution(streams.last()@),
        }
    }
}

/// Once both are known, more fields change nothing.
proof fn lemma_scan_stops(fields: Seq<CapsField>, n: nat, m: nat)
    requires
        n <= m,
        scanned(fields, n).0 is Some,
        scanned(fields, n).1 is Some,
    ensures
        scanned(fields, m) == scanned(fields, n),
    decreases m,
{
    if n < m {
        lemma_scan_stops(fields, n, (m - 1) as nat);
    }
}

/// Scans the fields of one stream for a width and a height.
pub fn discover_resolution_from_stream_info(fields: &Vec<CapsField>) -> (found: Option<FileInfo>)
    ensures
        found == stream_resolution(fields@),
{
    let mut width: Option<i32> = None;
    let mut height: Option<i32> = None;
    let mut i: usize = 0;
    while i < fields.len()
        invariant
            i <= fields.len(),
            (width, height) == scanned(fields@, i as nat),
            !(width is Some && height is Some),
        decreases fields.len() - i,
    {
        match fields[i] {
            CapsField::Width(w) => {
                width = Some(w);
            },
            CapsField::Height(h) => {
                height = Some(h);
            },
            CapsField::Other => {},
        }
        i += 1;
        if let (Some(w), Some(h)) = (width, height) {
            proof {
                lemma_scan_stops(fields@, i as nat, fields@.len());
            }
            return Some(FileInfo { width: w, height: h });
        }
    }
    None
}

/// Finds the resolution among the streams of a file: the first stream, in
/// the order given, whose fields name both a width and a height.
pub fn discover_resolution(streams: &Vec<Vec<CapsField>>) -> (out: Result<FileInfo, DiscoveryError>)
    ensures
        match out {
            Ok(info) => first_resolution(streams@) == Some(info),
            Err(e) => e == DiscoveryError::NoResolution && first_resolution(streams@) is None,
        },
{
    let mut i: usize = 0;
    assert(streams@.take(0) =~= Seq::<Vec<CapsField>>::empty());
    while i < streams.len()
        invariant
            i <= streams.len(),
            first_resolution(streams@.take(i as int)) is None,
        decreases streams.len() - i,
    {
        proof {
            assert(streams@.take(i + 1).drop_last() =~= streams@.take(i as int));
            assert(streams@.take(i + 1).last() == streams@[i as int]);
        }
        match discover_resolution_from_stream_info(&streams[i]) {
            Some(info) => {
                proof {
                    lemma_resolution_stays(streams@, i + 1);
                }
                return Ok(info);
            },
            None => {},
        }
        i += 1;
    }
    assert(streams@.take(streams@.len() as int) =~= streams@);
    Err(DiscoveryError::NoResolution)
}

/// A resolution found among the first streams is that of them all.
proof fn lemma_resolution_stays(streams: Seq<Vec<CapsField>>, n: int)
    requires
        0 <= n <= streams.len(),
        first_resolution(streams.take(n)) is Some,
    ensures
        first_resolution(streams) == first_resolution(streams.take(n)),
    decreases streams.len() - n,
{
    if n < streams.len() {
        assert(streams.take(n + 1).drop_last() =~= streams.take(n));
        lemma_resolution_stays(streams, n + 1);
    } else {
        assert(streams.take(n) =~= streams);
    }
}

impl FileInfo {
    /// The dimensions of the frames of the file's video; `None` where a
    /// side is negative.
    pub fn frame_dims(&self) -> (dims: Option<ImgDimensions>)
        ensures
            dims is Some <==> self.width >= 0 && self.height >= 0,
            dims matches Some(d) ==> d.width == self.width && d.height == self.height,
    {
        if self.width < 0 || self.height < 0 {
            None
        } else {
            Some(ImgDimensions { width: self.width as u32, height: self.height as u32 })
        }
    }
}

} // verus!

//! The artifact descriptor — location, advisory size hint, expected digests —
//! and the fetch session that feeds a transport's chunks through the verifier
//! while accumulating the payload.

use vstd::prelude::*;

use crate::error::Error;
use crate::hash::{
    decoded_entries, digests_view, digests_well_formed, DigestKind, Verdict, Verifier,
    verdict_of,
};

verus! {

/// The slash-separated path segments of the URL written `s`, if `s` parses as
/// a URL that can be a base; `None` otherwise. A fixed function of the text
/// alone, computed by the url crate.
pub uninterp spec fn url_path_segments(s: Seq<char>) -> Option<Seq<Seq<char>>>;

/// Relies on url::Url::parse and url::Url::path_segments: a parsed URL that
/// can be a base yields its path split on '/', with the leading slash
/// removed; a string that does not parse, or a cannot-be-a-base URL, yields
/// nothing.
#[verifier::external_body]
fn parse_path_segments(loc: &str) -> (r: Option<Vec<String>>)
    ensures
        r is Some <==> url_path_segments(loc@) is Some,
        r matches Some(v) ==> url_path_segments(loc@) == Some(
            v@.map_values(|s: String| s@),
        ),
{
    match url::Url::parse(loc) {
        Ok(u) => u.path_segments().map(|segs| segs.map(|s| s.to_string()).collect()),
        Err(_) => None,
    }
}

/// The mathematical view of an artifact descriptor.
pub ghost struct SourceV {
    /// The location text.
    pub location: Seq<char>,
    /// The advisory size hint, if any.
    pub size: Option<u64>,
    /// Each expected digest kind with its hex text.
    pub digests: Seq<(DigestKind, Seq<char>)>,
}

/// Describes one downloadable artifact: where it lives, an advisory size
/// hint, and zero or more expected digests keyed by kind. Immutable once
/// constructed.
#[derive(Debug)]
pub struct Source {
    url: String,
    size: Option<u64>,
    digests: Vec<(DigestKind, String)>,
}

impl View for Source {
    type V = SourceV;

    closed spec fn view(&self) -> SourceV {
        SourceV {
            location: self.url@,
            size: self.size,
            digests: digests_view(self.digests@),
        }
    }
}

impl Source {
    /// Builds a descriptor from its parts.
    pub fn new(url: String, size: Option<u64>, digests: Vec<(DigestKind, String)>) -> (r: Source)
        ensures
            r@.location == url@,
            r@.size == size,
            r@.digests == digests_view(digests@),
    {
        Source { url, size, digests }
    }

    /// The location text.
    pub fn url_str(&self) -> (r: &str)
        ensures
            r@ == self@.location,
    {
        self.url.as_str()
    }

    /// The advisory size hint; never validated against the transferred size.
    pub fn size_hint(&self) -> (r: Option<u64>)
        ensures
            r == self@.size,
    {
        self.size
    }

    /// Derives the filename: the last path segment of the location. Fails
    /// with `MalformedLocation` when the location has no path segments or the
    /// last segment is empty.
    pub fn get_filename(&self) -> (r: Result<String, Error>)
        ensures
            match url_path_segments(self@.location) {
                Some(segs) => if segs.len() > 0 && segs.last().len() > 0 {
                    r matches Ok(f) && f@ == segs.last()
                } else {
                    r == Err::<String, Error>(Error::MalformedLocation)
                },
                None => r == Err::<String, Error>(Error::MalformedLocation),
            },
    {
        let mut segs = match parse_path_segments(self.url.as_str()) {
            Some(v) => v,
            None => {
                return Err(Error::MalformedLocation);
            },
        };
        if segs.len() == 0 {
            return Err(Error::MalformedLocation);
        }
        let last = segs.pop().unwrap();
        proof {
            let ghost sv = url_path_segments(self@.location)->Some_0;
            assert(sv.last() == last@);
        }
        if last.as_str().is_empty() {
            return Err(Error::MalformedLocation);
        }
        Ok(last)
    }
}

/// One artifact fetch in flight: a verifier session beside the accumulated
/// payload, both fed every chunk the transport delivers, in receipt order.
pub struct FetchSession {
    verifier: Verifier,
    data: Vec<u8>,
}

impl FetchSession {
    /// The expected digests the session verifies against.
    pub closed spec fn entries(self) -> Seq<(DigestKind, Seq<u8>)> {
        self.verifier.entries()
    }

    /// The payload bytes received so far.
    pub closed spec fn data_bytes(self) -> Seq<u8> {
        self.data@
    }

    /// The verifier has been fed exactly the accumulated payload.
    pub closed spec fn wf(self) -> bool {
        self.verifier.wf() && self.verifier.bytes_fed() == self.data@
    }

    /// Opens a session for a descriptor, rejecting a malformed expected
    /// digest before any transport work. The payload buffer is pre-sized from
    /// the size hint; the hint is advisory only.
    pub fn begin_fetch(src: &Source) -> (r: Result<FetchSession, Error>)
        ensures
            r is Ok <==> digests_well_formed(src@.digests),
            r matches Ok(s) ==> {
                &&& s.wf()
                &&& s.data_bytes() == Seq::<u8>::empty()
                &&& s.entries() == decoded_entries(src@.digests)
            },
            r is Err ==> r == Err::<FetchSession, Error>(Error::MalformedDigest),
    {
        let verifier = match Verifier::begin(&src.digests) {
            Ok(v) => v,
            Err(e) => {
                return Err(Error::MalformedDigest);
            },
        };
        let data: Vec<u8> = match src.size {
            Some(sz) => if sz <= usize::MAX as u64 {
                Vec::with_capacity(sz as usize)
            } else {
                Vec::new()
            },
            None => Vec::new(),
        };
        Ok(FetchSession { verifier, data })
    }

    /// Appends one received chunk to the payload and feeds it to every
    /// accumulator.
    pub fn push_chunk(&mut self, chunk: &[u8])
        requires
            old(self).wf(),
        ensures
            final(self).wf(),
            final(self).entries() == old(self).entries(),
            final(self).data_bytes() == old(self).data_bytes() + chunk@,
    {
        let n = chunk.len();
        let mut i: usize = 0;
        while i < n
            invariant
                n == chunk@.len(),
                i <= n,
                self.data@ == old(self).data@ + chunk@.take(i as int),
                self.verifier == old(self).verifier,
            decreases n - i,
        {
            self.data.push(chunk[i]);
            proof {
                assert(chunk@.take(i as int).push(chunk@[i as int]) =~= chunk@.take(
                    i as int + 1,
                ));
            }
            i += 1;
        }
        proof {
            assert(chunk@.take(n as int) =~= chunk@);
        }
        self.verifier.update(chunk);
    }

    /// Ends the session once the transport has: on transport failure nothing
    /// is trusted; otherwise the payload is handed out only when every
    /// expected digest matches, and a mismatch withholds the bytes.
    pub fn complete(self, transport_ok: bool) -> (r: Result<Vec<u8>, Error>)
        requires
            self.wf(),
        ensures
            !transport_ok ==> r == Err::<Vec<u8>, Error>(Error::TransportFailure),
            transport_ok ==> match r {
                Ok(d) => d@ == self.data_bytes() && verdict_of(self.entries(), self.data_bytes())
                    == Verdict::Verified,
                Err(e) => e == Error::IntegrityMismatch && verdict_of(
                    self.entries(),
                    self.data_bytes(),
                ) == Verdict::Mismatch,
            },
    {
        if !transport_ok {
            return Err(Error::TransportFailure);
        }
        match self.verifier.finish() {
            Verdict::Verified => Ok(self.data),
            Verdict::Mismatch => Err(Error::IntegrityMismatch),
        }
    }
}

} // verus!

//! Services of the metadata pipeline: the image tagger, the cache's status
//! report, and the description of a service.
use vstd::prelude::*;
use crate::text::{chars_of, string_of};

verus! {

/// The sum of `bytes`.
pub open spec fn byte_sum(bytes: Seq<u8>) -> int
    decreases bytes.len(),
{
    if bytes.len() == 0 {
        0
    } else {
        byte_sum(bytes.drop_last()) + bytes.last() as int
    }
}

/// An image to tag.
#[derive(Clone, Debug)]
pub struct Input {
    pub id: String,
    pub bytes: Vec<u8>,
}

/// The tags of an image.
#[derive(Clone, Debug)]
pub struct Output {
    pub id: String,
    pub tags: Vec<String>,
}

/// Whether the bytes of an image sum to an even number.
pub fn even_sum(bytes: &Vec<u8>) -> (r: bool)
    ensures
        r == (byte_sum(bytes@) % 2 == 0),
{
    let mut even = true;
    let mut i: usize = 0;
    while i < bytes.len()
        invariant
            i <= bytes@.len(),
            even == (byte_sum(bytes@.subrange(0, i as int)) % 2 == 0),
        decreases bytes@.len() - i,
    {
        assert(bytes@.subrange(0, i + 1).drop_last() =~= bytes@.subrange(0, i as int));
        even = even == (bytes[i] % 2 == 0);
        i = i + 1;
    }
    assert(bytes@.subrange(0, i as int) =~= bytes@);
    even
}

/// Tags an image `even` or `odd` by the parity of its byte sum, and
/// `low-entropy`.
pub fn analyze(input: Input) -> (r: Output)
    ensures
        r.id@ == input.id@,
        r.tags@.len() == 2,
        r.tags@[0]@ == (if byte_sum(input.bytes@) % 2 == 0 {
            seq!['e', 'v', 'e', 'n']
        } else {
            seq!['o', 'd', 'd']
        }),
        r.tags@[1]@ == seq!['l', 'o', 'w', '-', 'e', 'n', 't', 'r', 'o', 'p', 'y'],
{
    let first = if even_sum(&input.bytes) {
        String::from_str("even")
    } else {
        String::from_str("odd")
    };
    let second = String::from_str("low-entropy");
    proof {
        reveal_strlit("even");
        reveal_strlit("odd");
        reveal_strlit("low-entropy");
    }
    let mut tags: Vec<String> = Vec::new();
    tags.push(first);
    tags.push(second);
    Output { id: input.id, tags }
}

/// An analysed image, as the cache receives it.
#[derive(Clone, Debug)]
pub struct ImageAnalyzed {
    pub id: String,
    pub tags: Vec<String>,
}

/// What the cache reports about one event.
#[derive(Clone, Debug)]
pub struct Status {
    pub source: String,
    pub event: String,
    pub status: String,
    pub reason: Option<String>,
}

impl Status {
    /// The cache's report on an `image.analyzed.v1` event: `passed` when it
    /// was stored, else `failed` with the reason.
    pub fn from_outcome(failure: Option<String>) -> (r: Status)
        ensures
            r.source@ == "edge.cache"@,
            r.event@ == "image.analyzed.v1"@,
            r.status@ == (if failure is None {
                "passed"@
            } else {
                "failed"@
            }),
            r.reason == failure,
    {
        let status = if failure.is_none() {
            String::from_str("passed")
        } else {
            String::from_str("failed")
        };
        Status {
            source: String::from_str("edge.cache"),
            event: String::from_str("image.analyzed.v1"),
            status,
            reason: failure,
        }
    }
}

/// A service's name and version.
#[derive(Clone, Debug)]
pub struct ServiceInfo {
    pub name: String,
    pub version: String,
}

impl ServiceInfo {
    /// `name:version`, the label that identifies the service in events.
    pub fn label(&self) -> (r: String)
        ensures
            r@ == self.name@ + seq![':'] + self.version@,
    {
        let mut cs = chars_of(self.name.as_str());
        cs.push(':');
        let vs = chars_of(self.version.as_str());
        let ghost head = cs@;
        let mut i: usize = 0;
        while i < vs.len()
            invariant
                i <= vs@.len(),
                cs@ == head + vs@.subrange(0, i as int),
            decreases vs@.len() - i,
        {
            cs.push(vs[i]);
            i = i + 1;
            assert(cs@ =~= head + vs@.subrange(0, i as int));
        }
        assert(vs@.subrange(0, i as int) =~= vs@);
        string_of(&cs)
    }
}

/// A capability that a service declares.
#[derive(Clone, Debug)]
pub struct Capability {
    pub name: String,
    pub description: String,
}

} // verus!

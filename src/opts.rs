use vstd::prelude::*;
use vstd::string::*;
use crate::stream_op::Compression;
use crate::error::TransportError;

verus! {

/// How many times `c` occurs in `s`.
pub open spec fn count_char(s: Seq<char>, c: char) -> nat
    decreases s.len(),
{
    if s.len() == 0 {
        0
    } else {
        count_char(s.drop_last(), c) + if s.last() == c {
            1nat
        } else {
            0nat
        }
    }
}

/// Where `c` first occurs in `s`; the length of `s` where it does not occur.
pub open spec fn first_index(s: Seq<char>, c: char) -> int
    decreases s.len(),
{
    if s.len() == 0 {
        0
    } else if s[0] == c {
        0
    } else {
        1 + first_index(s.drop_first(), c)
    }
}

proof fn lemma_first_index(s: Seq<char>, c: char, i: int)
    requires
        0 <= i <= s.len(),
        forall|j: int| 0 <= j < i ==> s[j] != c,
        i < s.len() ==> s[i] == c,
    ensures
        first_index(s, c) == i,
    decreases s.len(),
{
    if s.len() > 0 && s[0] != c {
        let t = s.drop_first();
        assert forall|j: int| 0 <= j < i - 1 implies t[j] != c by {
            assert(t[j] == s[j + 1]);
        }
        if i - 1 < t.len() {
            assert(t[i - 1] == s[i]);
        }
        lemma_first_index(t, c, i - 1);
    }
}

/// Counts `c` in `s` and finds where it first occurs.
fn scan_char(s: &str, c: char) -> (r: (usize, usize))
    ensures
        r.0 == count_char(s@, c),
        r.1 == first_index(s@, c),
        r.0 > 0 ==> r.1 < s@.len(),
{
    let len = s.unicode_len();
    let mut count: usize = 0;
    let mut first: usize = len;
    let mut i: usize = 0;
    while i < len
        invariant
            len == s@.len(),
            0 <= i <= len,
            count == count_char(s@.subrange(0, i as int), c),
            count <= i,
            count > 0 ==> first < i,
            first == len || (first < i && s@[first as int] == c),
            forall|j: int| 0 <= j < i && j < first ==> s@[j] != c,
        decreases len - i,
    {
        let ch = s.get_char(i);
        assert(s@.subrange(0, i + 1).drop_last() =~= s@.subrange(0, i as int));
        if ch == c {
            count = count + 1;
            if first == len {
                first = i;
            }
        }
        i = i + 1;
    }
    assert(s@.subrange(0, len as int) =~= s@);
    proof {
        lemma_first_index(s@, c, first as int);
    }
    (count, first)
}

/// Where the transport finds its certificate, its key, and the name the
/// certificate is bound to.
#[derive(Debug, Clone)]
pub struct TransportOpts {
    pub cert_path: String,
    pub key_path: Option<String>,
    pub fqdn: String,
}

/// The certificate part of `cert[:key]`: up to the first colon.
pub open spec fn cert_part(ck: Seq<char>) -> Seq<char> {
    ck.subrange(0, first_index(ck, ':'))
}

/// The key part of `cert:key`, where the text holds exactly one colon.
pub open spec fn key_part(ck: Seq<char>) -> Option<Seq<char>> {
    if count_char(ck, ':') == 1 {
        Some(ck.subrange(first_index(ck, ':') + 1, ck.len() as int))
    } else {
        None
    }
}

pub open spec fn opt_view(o: Option<String>) -> Option<Seq<char>> {
    match o {
        Some(s) => Some(s@),
        None => None,
    }
}

proof fn lemma_first_index_bound(s: Seq<char>, c: char)
    ensures
        0 <= first_index(s, c) <= s.len(),
        first_index(s, c) < s.len() ==> s[first_index(s, c)] == c,
    decreases s.len(),
{
    if s.len() > 0 && s[0] != c {
        lemma_first_index_bound(s.drop_first(), c);
    }
}

impl TransportOpts {
    /// Reads `cert_path:key_path@fqdn` or `cert_path@fqdn`. Text with no `@`,
    /// or with more than one, is refused. The key is taken only where the part
    /// before the `@` holds exactly one colon; the certificate path runs up to
    /// the first colon.
    pub fn parse_from_str(s: &str) -> (r: Option<Self>)
        ensures
            count_char(s@, '@') != 1 <==> r is None,
            r matches Some(o) ==> {
                let ck = s@.subrange(0, first_index(s@, '@'));
                &&& o.fqdn@ == s@.subrange(first_index(s@, '@') + 1, s@.len() as int)
                &&& o.cert_path@ == cert_part(ck)
                &&& opt_view(o.key_path) == key_part(ck)
            },
    {
        let (ats, at) = scan_char(s, '@');
        if ats != 1 {
            return None;
        }
        proof {
            lemma_first_index_bound(s@, '@');
        }
        let len = s.unicode_len();
        let cert_and_key = s.substring_char(0, at);
        let fqdn = s.substring_char(at + 1, len).to_owned();
        let (colons, colon) = scan_char(cert_and_key, ':');
        proof {
            lemma_first_index_bound(cert_and_key@, ':');
        }
        let cert_path = cert_and_key.substring_char(0, colon).to_owned();
        let key_path = if colons == 1 {
            Some(cert_and_key.substring_char(colon + 1, cert_and_key.unicode_len()).to_owned())
        } else {
            None
        };
        Some(TransportOpts { cert_path, key_path, fqdn })
    }

    /// The key path, which a server cannot do without.
    pub fn require_key_path(&self) -> (r: Result<&String, TransportError>)
        ensures
            match self.key_path {
                Some(k) => r == Ok::<&String, TransportError>(&k),
                None => r == Err::<&String, TransportError>(TransportError::MissingKeyPath),
            },
    {
        match &self.key_path {
            Some(k) => Ok(k),
            None => Err(TransportError::MissingKeyPath),
        }
    }
}

/// Which compression the server asks for on its streams.
#[derive(Debug, Clone, Copy)]
pub struct TransportServerConfig {
    pub use_lz4_compression: bool,
    pub use_zstd_compression: bool,
}

impl TransportServerConfig {
    /// The mode of every stream: lz4 where asked for, else zstd where asked
    /// for, else none.
    pub fn compression(&self) -> (r: Compression)
        ensures
            r == (if self.use_lz4_compression {
                Compression::Lz4
            } else if self.use_zstd_compression {
                Compression::Zstd
            } else {
                Compression::Uncompressed
            }),
    {
        if self.use_lz4_compression {
            Compression::Lz4
        } else if self.use_zstd_compression {
            Compression::Zstd
        } else {
            Compression::Uncompressed
        }
    }
}

} // verus!

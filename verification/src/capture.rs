use crate::text::{starts_with, str_starts_with};
use vstd::prelude::*;
use vstd::utf8::{decode_utf8, valid_utf8};

verus! {

/// The byte is an ASCII hexadecimal digit.
pub open spec fn is_hex_digit(b: u8) -> bool {
    (48 <= b && b <= 57) || (97 <= b && b <= 102) || (65 <= b && b <= 70)
}

/// The value of an ASCII hexadecimal digit.
pub open spec fn hex_digit_val(b: u8) -> u8 {
    if 48 <= b && b <= 57 {
        (b - 48) as u8
    } else if 97 <= b && b <= 102 {
        (b - 87) as u8
    } else if 65 <= b && b <= 70 {
        (b - 55) as u8
    } else {
        0
    }
}

/// `bytes` with every `%XX` escape (two hexadecimal digits) replaced by the
/// byte it names; anything else is copied through unchanged.
pub open spec fn pct_decode(bytes: Seq<u8>) -> Seq<u8>
    decreases bytes.len(),
{
    if bytes.len() == 0 {
        Seq::empty()
    } else if bytes[0] == 37 && bytes.len() >= 3 && is_hex_digit(bytes[1]) && is_hex_digit(
        bytes[2],
    ) {
        seq![(16 * hex_digit_val(bytes[1]) + hex_digit_val(bytes[2])) as u8] + pct_decode(
            bytes.skip(3),
        )
    } else {
        seq![bytes[0]] + pct_decode(bytes.skip(1))
    }
}

/// The value of `b` as a hexadecimal digit, if it is one.
fn hex_val(b: u8) -> (r: Option<u8>)
    ensures
        r is Some <==> is_hex_digit(b),
        is_hex_digit(b) ==> r == Some(hex_digit_val(b)),
{
    if 48 <= b && b <= 57 {
        Some(b - 48)
    } else if 97 <= b && b <= 102 {
        Some(b - 87)
    } else if 65 <= b && b <= 70 {
        Some(b - 55)
    } else {
        None
    }
}

/// Decode percent-escapes: each `%` followed by two hexadecimal digits
/// becomes one byte; everything else is copied through.
pub fn percent_decode(bytes: &Vec<u8>) -> (r: Vec<u8>)
    ensures
        r@ == pct_decode(bytes@),
{
    let n = bytes.len();
    let mut out: Vec<u8> = Vec::new();
    let mut i: usize = 0;
    proof {
        assert(bytes@.skip(0) =~= bytes@);
        assert(out@ + pct_decode(bytes@) =~= pct_decode(bytes@));
    }
    while i < n
        invariant
            i <= n,
            n == bytes@.len(),
            pct_decode(bytes@) == out@ + pct_decode(bytes@.skip(i as int)),
        decreases n - i,
    {
        let ghost rest = bytes@.skip(i as int);
        proof {
            assert(rest.len() == n - i);
            assert(rest[0] == bytes@[i as int]);
        }
        let b = bytes[i];
        if b == 37 && n - i > 2 {
            let h1 = hex_val(bytes[i + 1]);
            let h2 = hex_val(bytes[i + 2]);
            match (h1, h2) {
                (Some(v1), Some(v2)) => {
                    proof {
                        assert(rest[1] == bytes@[i + 1]);
                        assert(rest[2] == bytes@[i + 2]);
                        assert(rest.skip(3) =~= bytes@.skip(i + 3));
                        assert(pct_decode(rest) == seq![(16 * hex_digit_val(rest[1])
                            + hex_digit_val(rest[2])) as u8] + pct_decode(bytes@.skip(i + 3)));
                    }
                    out.push(16 * v1 + v2);
                    proof {
                        assert(pct_decode(bytes@) =~= out@ + pct_decode(bytes@.skip(i + 3)));
                    }
                    i += 3;
                    continue;
                },
                _ => {},
            }
        }
        proof {
            assert(!(rest[0] == 37 && rest.len() >= 3 && is_hex_digit(rest[1]) && is_hex_digit(
                rest[2],
            )));
            assert(rest.skip(1) =~= bytes@.skip(i + 1));
            assert(pct_decode(rest) == seq![rest[0]] + pct_decode(bytes@.skip(i + 1)));
        }
        out.push(b);
        proof {
            assert(pct_decode(bytes@) =~= out@ + pct_decode(bytes@.skip(i + 1)));
        }
        i += 1;
    }
    proof {
        assert(bytes@.skip(n as int) =~= Seq::<u8>::empty());
        assert(pct_decode(bytes@) =~= out@);
    }
    out
}

/// Relies on `String::from_utf8`: it succeeds exactly on valid UTF-8, and
/// the resulting string is the decoding of those bytes.
#[verifier::external_body]
fn string_from_utf8(bytes: Vec<u8>) -> (r: Option<String>)
    ensures
        r is Some <==> valid_utf8(bytes@),
        match r {
            Some(s) => s@ == decode_utf8(bytes@),
            None => !valid_utf8(bytes@),
        },
{
    String::from_utf8(bytes).ok()
}

/// The filesystem path named by a captured URL string: the part after the
/// `file://` scheme, percent-decoded, when that decodes as UTF-8.
pub open spec fn url_to_path(url: Seq<char>) -> Option<Seq<char>> {
    if starts_with(url, "file://"@) && valid_utf8(
        pct_decode(vstd::utf8::encode_utf8(url.skip(7))),
    ) {
        Some(decode_utf8(pct_decode(vstd::utf8::encode_utf8(url.skip(7)))))
    } else {
        None
    }
}

/// Convert a captured `file://` URL to a filesystem path. URLs of any other
/// scheme, and escapes that do not decode to UTF-8, yield nothing.
pub fn file_url_to_path(url: &str) -> (r: Option<String>)
    ensures
        r.deep_view() == url_to_path(url@),
{
    if !str_starts_with(url, "file://") {
        return None;
    }
    proof {
        reveal_strlit("file://");
        assert("file://"@.len() == 7);
    }
    let n = url.unicode_len();
    let encoded = url.substring_char(7, n);
    proof {
        assert(encoded@ =~= url@.skip(7));
    }
    let raw = encoded.as_bytes_vec();
    let decoded = percent_decode(&raw);
    string_from_utf8(decoded)
}

/// The paths that a list of captured URL strings names, in order; captured
/// strings that name no path are dropped.
pub open spec fn paths_of_urls(urls: Seq<Seq<char>>) -> Seq<Seq<char>>
    decreases urls.len(),
{
    if urls.len() == 0 {
        Seq::empty()
    } else {
        let pre = paths_of_urls(urls.drop_last());
        match url_to_path(urls.last()) {
            Some(p) => pre.push(p),
            None => pre,
        }
    }
}

/// The store where the OS-level open-event shim parks incoming `file://`
/// URL strings until the runtime's main loop collects them. The shim only
/// appends; the runtime drains.
#[derive(Debug)]
pub struct OpenPathCapture {
    pub captured: Vec<String>,
}

impl OpenPathCapture {
    /// The captured URL strings waiting to be collected, in arrival order.
    pub open spec fn pending(&self) -> Seq<Seq<char>> {
        self.captured.deep_view()
    }

    /// An empty store.
    pub fn new() -> (r: Self)
        ensures
            r.pending() == Seq::<Seq<char>>::empty(),
    {
        let r = OpenPathCapture { captured: Vec::new() };
        proof {
            assert(r.pending() =~= Seq::<Seq<char>>::empty());
        }
        r
    }

    /// Park one URL string delivered by the OS.
    pub fn push_url(&mut self, url: String)
        ensures
            final(self).pending() == old(self).pending().push(url@),
    {
        self.captured.push(url);
        proof {
            assert(self.pending() =~= old(self).pending().push(self.captured@.last()@));
        }
    }

    /// Park a batch of URL strings delivered by the OS.
    pub fn push_urls(&mut self, urls: &Vec<String>)
        ensures
            final(self).pending() == old(self).pending() + urls.deep_view(),
    {
        crate::pending::append_cloned(&mut self.captured, urls);
    }

    /// Drain every captured URL and convert each to a filesystem path,
    /// in arrival order; URLs naming no path are dropped. Each capture is
    /// handed out at most once: the store is empty afterwards.
    pub fn take_paths(&mut self) -> (r: Vec<String>)
        ensures
            r.deep_view() == paths_of_urls(old(self).pending()),
            final(self).pending() == Seq::<Seq<char>>::empty(),
    {
        let mut urls: Vec<String> = Vec::new();
        urls.append(&mut self.captured);
        proof {
            assert(urls.deep_view() =~= old(self).pending());
            assert(self.pending() =~= Seq::<Seq<char>>::empty());
        }
        let ghost all = urls.deep_view();
        let mut out: Vec<String> = Vec::new();
        let mut i: usize = 0;
        while i < urls.len()
            invariant
                i <= all.len(),
                all == urls.deep_view(),
                out.deep_view() == paths_of_urls(all.take(i as int)),
            decreases all.len() - i,
        {
            let ghost pre = all.take(i as int);
            let ghost post = all.take(i + 1);
            proof {
                assert(post.drop_last() =~= pre);
                assert(post.last() == all[i as int]);
                assert(all[i as int] == urls@[i as int]@);
            }
            if let Some(path) = file_url_to_path(urls[i].as_str()) {
                out.push(path);
            }
            proof {
                assert(out.deep_view() =~= paths_of_urls(post));
            }
            i += 1;
        }
        proof {
            assert(all.take(all.len() as int) =~= all);
        }
        out
    }
}

} // verus!

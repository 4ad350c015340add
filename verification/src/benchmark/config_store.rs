//! Device-pair keys under which calibration results are stored.
use vstd::prelude::*;

use crate::text::{chars_of, is_ws, push_char, skip_ws_backward, skip_ws_forward, trim, trim_end, trim_start};

verus! {

/// Whether a character beyond ASCII is alphabetic or numeric in Unicode, as
/// `char::is_alphanumeric` decides.
pub uninterp spec fn spec_unicode_alphanumeric(c: char) -> bool;

/// Whether a character is alphanumeric, as `char::is_alphanumeric` decides: for
/// ASCII the letters and the decimal digits, beyond ASCII the Unicode answer.
pub open spec fn spec_is_alphanumeric(c: char) -> bool {
    if (c as u32) < 128 {
        ('a' <= c && c <= 'z') || ('A' <= c && c <= 'Z') || ('0' <= c && c <= '9')
    } else {
        spec_unicode_alphanumeric(c)
    }
}

/// Calls `char::is_alphanumeric`. For ASCII characters the standard library documents
/// the answer as the letters and the decimal digits; beyond ASCII the result is
/// only named.
#[verifier::external_body]
fn char_is_alphanumeric(c: char) -> (b: bool)
    ensures
        b == spec_is_alphanumeric(c),
        (c as u32) >= 128 ==> b == spec_unicode_alphanumeric(c),
{
    c.is_alphanumeric()
}

/// The character kept in a file-name-safe key: letters, digits, `-` and `_` stay,
/// anything else becomes `_`.
pub open spec fn key_char(c: char) -> char {
    if spec_is_alphanumeric(c) || c == '-' || c == '_' {
        c
    } else {
        '_'
    }
}

/// The key of a peer: `default_peer` when the trimmed id is empty, else the trimmed
/// id with every character outside letters, digits, `-` and `_` replaced by `_`.
pub open spec fn spec_pair_key(peer_id: Seq<char>) -> Seq<char> {
    let t = trim(peer_id);
    if t.len() == 0 {
        seq!['d', 'e', 'f', 'a', 'u', 'l', 't', '_', 'p', 'e', 'e', 'r']
    } else {
        Seq::new(t.len(), |i: int| key_char(t[i]))
    }
}

proof fn lemma_trim_start_front(s: Seq<char>)
    ensures
        trim_start(s).len() == 0 || !is_ws(trim_start(s)[0]),
    decreases s.len(),
{
    if s.len() > 0 && is_ws(s[0]) {
        lemma_trim_start_front(s.drop_first());
    }
}

proof fn lemma_trim_end_prefix(s: Seq<char>)
    ensures
        trim_end(s).len() <= s.len(),
        trim_end(s) == s.take(trim_end(s).len() as int),
        trim_end(s).len() == 0 || !is_ws(trim_end(s).last()),
    decreases s.len(),
{
    if s.len() > 0 && is_ws(s.last()) {
        lemma_trim_end_prefix(s.drop_last());
        assert(s.drop_last().take(trim_end(s).len() as int) =~= s.take(trim_end(s).len() as int));
    } else {
        assert(s.take(s.len() as int) =~= s);
    }
}

/// A trimmed text starts and ends with a non-whitespace character.
proof fn lemma_trim_ends(s: Seq<char>)
    ensures
        trim(s).len() > 0 ==> !is_ws(trim(s)[0]) && !is_ws(trim(s).last()),
{
    lemma_trim_start_front(s);
    lemma_trim_end_prefix(trim_start(s));
    if trim(s).len() > 0 {
        assert(trim(s)[0] == trim_start(s).take(trim(s).len() as int)[0]);
    }
}

/// A text that starts and ends with a non-whitespace character is its own trim.
proof fn lemma_trim_fixed(s: Seq<char>)
    requires
        s.len() > 0,
        !is_ws(s[0]),
        !is_ws(s.last()),
    ensures
        trim(s) == s,
{
    assert(trim_start(s) == s);
}

/// Pair keys are stable file names: a key is never empty, holds only letters,
/// digits, `-` and `_`, and is its own key.
pub proof fn lemma_pair_key_stable(peer_id: Seq<char>)
    ensures
        spec_pair_key(peer_id).len() > 0,
        forall|i: int|
            0 <= i < spec_pair_key(peer_id).len() ==> {
                let c = #[trigger] spec_pair_key(peer_id)[i];
                spec_is_alphanumeric(c) || c == '-' || c == '_'
            },
        spec_pair_key(spec_pair_key(peer_id)) == spec_pair_key(peer_id),
{
    let t = trim(peer_id);
    let k = spec_pair_key(peer_id);
    if t.len() == 0 {
        assert(k[0] == 'd');
        assert(k.last() == 'r');
        lemma_trim_fixed(k);
        assert(spec_pair_key(k) =~= k);
    } else {
        lemma_trim_ends(peer_id);
        assert(!is_ws(k[0]));
        assert(k.last() == key_char(t.last()));
        assert(!is_ws(k.last()));
        lemma_trim_fixed(k);
        assert(spec_pair_key(k) =~= k);
    }
}

/// Normalizes and derives a stable identifier for a target device pair.
pub fn get_pair_key(peer_id: &str) -> (key: String)
    ensures
        key@ == spec_pair_key(peer_id@),
{
    let chars = chars_of(peer_id);
    let n = chars.len();
    let i = skip_ws_forward(&chars, 0, n);
    let j = skip_ws_backward(&chars, i, n);
    proof {
        assert(chars@.subrange(0, n as int) =~= chars@);
    }
    let ghost t = trim(peer_id@);
    assert(t == chars@.subrange(i as int, j as int));
    let mut key = String::new();
    if i == j {
        let dp: Vec<char> = vec!['d', 'e', 'f', 'a', 'u', 'l', 't', '_', 'p', 'e', 'e', 'r'];
        let mut k: usize = 0;
        while k < dp.len()
            invariant
                k <= dp@.len(),
                key@ == dp@.take(k as int),
            decreases dp@.len() - k,
        {
            proof {
                assert(dp@.take(k + 1) =~= dp@.take(k as int).push(dp@[k as int]));
            }
            push_char(&mut key, dp[k]);
            k = k + 1;
        }
        proof {
            assert(dp@.take(dp@.len() as int) =~= dp@);
            assert(key@ =~= spec_pair_key(peer_id@));
        }
        return key;
    }
    let mut k: usize = i;
    while k < j
        invariant
            i <= k <= j <= chars@.len(),
            t == chars@.subrange(i as int, j as int),
            key@ == Seq::new((k - i) as nat, |m: int| key_char(t[m])),
        decreases j - k,
    {
        let c = chars[k];
        let keep = char_is_alphanumeric(c) || c == '-' || c == '_';
        let out = if keep {
            c
        } else {
            '_'
        };
        proof {
            assert(t[k - i] == c);
        }
        push_char(&mut key, out);
        k = k + 1;
        proof {
            assert(key@ =~= Seq::new((k - i) as nat, |m: int| key_char(t[m])));
        }
    }
    proof {
        assert(key@ =~= spec_pair_key(peer_id@));
    }
    key
}

} // verus!

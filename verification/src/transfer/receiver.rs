//! Receive mode: which listeners a request to leave receive mode stops.
use vstd::prelude::*;

use crate::text::{ends_with, has_suffix, same_text, texts};

verus! {

/// The suffix of the default receive port.
pub open spec fn default_port_suffix() -> Seq<char> {
    seq![':', '9', '8', '7', '6']
}

/// A listener key matches a requested address when it is the address, or when both
/// are on the default receive port.
pub open spec fn listener_matches(key: Seq<char>, address: Seq<char>) -> bool {
    key == address || (has_suffix(key, default_port_suffix()) && has_suffix(
        address,
        default_port_suffix(),
    ))
}

/// The keys, in order, that match `address`.
pub open spec fn matching_keys(keys: Seq<Seq<char>>, address: Seq<char>) -> Seq<Seq<char>>
    decreases keys.len(),
{
    if keys.len() == 0 {
        Seq::empty()
    } else {
        let rest = matching_keys(keys.drop_last(), address);
        if listener_matches(keys.last(), address) {
            rest.push(keys.last())
        } else {
            rest
        }
    }
}

fn copy_text(s: &String) -> (c: String)
    ensures
        c@ == s@,
{
    s.clone()
}

/// Decides which receive listeners to stop: with no address, all of them; with an
/// address that is a listener's key, that listener; otherwise every listener whose
/// key matches the address (equal, or both on port 9876). Receive mode was active
/// when the result is not empty.
pub fn leave_receive_mode(listener_keys: &Vec<String>, address: Option<&str>) -> (stop: Vec<String>)
    ensures
        address is None ==> texts(stop@) == texts(listener_keys@),
        address matches Some(a) ==> (if texts(listener_keys@).contains(a@) {
            texts(stop@) == seq![a@]
        } else {
            texts(stop@) == matching_keys(texts(listener_keys@), a@)
        }),
{
    let mut stop: Vec<String> = Vec::new();
    match address {
        None => {
            let mut i: usize = 0;
            while i < listener_keys.len()
                invariant
                    i <= listener_keys@.len(),
                    texts(stop@) == texts(listener_keys@.take(i as int)),
                decreases listener_keys@.len() - i,
            {
                let ghost before = stop@;
                let c = copy_text(&listener_keys[i]);
                stop.push(c);
                proof {
                    assert(texts(before).len() == before.len());
                    assert(before.len() == i);
                    assert(stop@ == before.push(c));
                }
                i = i + 1;
                proof {
                    let t = listener_keys@.take(i as int);
                    assert forall|j: int| 0 <= j < i implies texts(stop@)[j] == texts(t)[j] by {
                        if j < i - 1 {
                            assert(stop@[j] == before[j]);
                            assert(texts(before)[j] == texts(listener_keys@.take(i - 1))[j]);
                        }
                    }
                    assert(texts(stop@) =~= texts(t));
                }
            }
            proof {
                assert(listener_keys@.take(i as int) =~= listener_keys@);
            }
            stop
        },
        Some(a) => {
            let mut i: usize = 0;
            while i < listener_keys.len()
                invariant
                    i <= listener_keys@.len(),
                    stop@ == Seq::<String>::empty(),
                    address == Some(a),
                    forall|j: int| 0 <= j < i ==> listener_keys@[j]@ != a@,
                decreases listener_keys@.len() - i,
            {
                if same_text(listener_keys[i].as_str(), a) {
                    stop.push(a.to_owned());
                    proof {
                        assert(texts(listener_keys@)[i as int] == a@);
                        assert(texts(stop@)[0] == a@);
                        assert(texts(stop@) =~= seq![a@]);
                    }
                    return stop;
                }
                i = i + 1;
            }
            proof {
                if texts(listener_keys@).contains(a@) {
                    let j = choose|j: int| 0 <= j < texts(listener_keys@).len() && texts(listener_keys@)[j] == a@;
                    assert(listener_keys@[j]@ == a@);
                }
            }
            let a_default = ends_with(a, ":9876");
            proof {
                reveal_strlit(":9876");
                assert(":9876"@ =~= default_port_suffix());
            }
            let mut k: usize = 0;
            while k < listener_keys.len()
                invariant
                    k <= listener_keys@.len(),
                    a_default == has_suffix(a@, default_port_suffix()),
                    texts(stop@) == matching_keys(texts(listener_keys@.take(k as int)), a@),
                decreases listener_keys@.len() - k,
            {
                let key = &listener_keys[k];
                let m = same_text(key.as_str(), a) || (ends_with(key.as_str(), ":9876") && a_default);
                proof {
                    reveal_strlit(":9876");
                    assert(":9876"@ =~= default_port_suffix());
                    let t1 = texts(listener_keys@.take(k + 1));
                    assert(t1.drop_last() =~= texts(listener_keys@.take(k as int)));
                    assert(t1.last() == key@);
                }
                let ghost before = stop@;
                if m {
                    stop.push(copy_text(key));
                    proof {
                        let want = matching_keys(texts(listener_keys@.take(k as int)), a@).push(key@);
                        assert forall|j: int| 0 <= j < stop@.len() implies texts(stop@)[j] == want[j] by {
                            if j < before.len() {
                                assert(stop@[j] == before[j]);
                                assert(texts(before)[j] == texts(stop@)[j]);
                            }
                        }
                        assert(texts(stop@) =~= want);
                    }
                }
                k = k + 1;
            }
            proof {
                assert(listener_keys@.take(k as int) =~= listener_keys@);
            }
            stop
        },
    }
}

} // verus!

//! The header table: a case-insensitive name/value store that keeps the
//! spelling of the last write for serialization. A single entry list keyed
//! by the lowercased name replaces the two-map layout; the collapse of names
//! differing only in case is the table's invariant.

use vstd::prelude::*;
use crate::bytes::dec_value_spec;
use crate::bytes::is_dec_digits;
use crate::bytes::lower_bytes;
use crate::bytes::lower_spec;
use crate::bytes::parse_dec;
use crate::bytes::subvec;
use crate::status::HTTPError;
use crate::wire::content_length_key;
use crate::wire::content_length_name;

verus! {

/// One header: the name as last written, and its value.
#[derive(Debug)]
pub struct HeaderEntry {
    pub name: Vec<u8>,
    pub value: Vec<u8>,
}

impl View for HeaderEntry {
    type V = (Seq<u8>, Seq<u8>);

    open spec fn view(&self) -> (Seq<u8>, Seq<u8>) {
        (self.name@, self.value@)
    }
}

/// Index of the first entry whose lowercased name is `key`, or `-1`.
pub open spec fn first_match_spec(m: Seq<(Seq<u8>, Seq<u8>)>, key: Seq<u8>) -> int
    decreases m.len(),
{
    if m.len() == 0 {
        -1
    } else if lower_spec(m[0].0) == key {
        0
    } else {
        let r = first_match_spec(m.drop_first(), key);
        if r < 0 {
            -1
        } else {
            r + 1
        }
    }
}

pub proof fn lemma_first_match(m: Seq<(Seq<u8>, Seq<u8>)>, key: Seq<u8>)
    ensures
        first_match_spec(m, key) >= -1,
        first_match_spec(m, key) >= 0 ==> first_match_spec(m, key) < m.len() && lower_spec(
            m[first_match_spec(m, key)].0,
        ) == key,
        forall|j: int|
            0 <= j < first_match_spec(m, key) ==> lower_spec(#[trigger] m[j].0) != key,
        first_match_spec(m, key) == -1 ==> forall|j: int|
            0 <= j < m.len() ==> lower_spec(#[trigger] m[j].0) != key,
    decreases m.len(),
{
    if m.len() == 0 {
    } else if lower_spec(m[0].0) == key {
    } else {
        let t = m.drop_first();
        lemma_first_match(t, key);
        let r = first_match_spec(t, key);
        if r < 0 {
            assert forall|j: int| 0 <= j < m.len() implies lower_spec(#[trigger] m[j].0)
                != key by {
                if j >= 1 {
                    assert(t[j - 1] == m[j]);
                    assert(lower_spec(t[j - 1].0) != key);
                }
            }
        } else {
            assert(t[r] == m[r + 1]);
            assert forall|j: int| 0 <= j < r + 1 implies lower_spec(#[trigger] m[j].0)
                != key by {
                if j >= 1 {
                    assert(t[j - 1] == m[j]);
                    assert(lower_spec(t[j - 1].0) != key);
                }
            }
        }
    }
}

pub proof fn lemma_first_match_at(m: Seq<(Seq<u8>, Seq<u8>)>, key: Seq<u8>, k: int)
    requires
        0 <= k < m.len(),
        lower_spec(m[k].0) == key,
        forall|j: int| 0 <= j < k ==> lower_spec(#[trigger] m[j].0) != key,
    ensures
        first_match_spec(m, key) == k,
{
    lemma_first_match(m, key);
    let f = first_match_spec(m, key);
    if f == -1 {
        assert(lower_spec(m[k].0) != key);
    } else if f < k {
        assert(lower_spec(m[f].0) != key);
    } else if f > k {
        assert(lower_spec(m[k].0) != key);
    }
}

pub proof fn lemma_first_match_none(m: Seq<(Seq<u8>, Seq<u8>)>, key: Seq<u8>)
    requires
        forall|j: int| 0 <= j < m.len() ==> lower_spec(#[trigger] m[j].0) != key,
    ensures
        first_match_spec(m, key) == -1,
{
    lemma_first_match(m, key);
    let f = first_match_spec(m, key);
    if f >= 0 {
        assert(lower_spec(m[f].0) != key);
    }
}

/// The value stored under lowercased key `key`, if any.
pub open spec fn lookup_spec(m: Seq<(Seq<u8>, Seq<u8>)>, key: Seq<u8>) -> Option<Seq<u8>> {
    let k = first_match_spec(m, key);
    if k < 0 {
        None
    } else {
        Some(m[k].1)
    }
}

/// What `add` does: the last write for a case-insensitive name wins, for the
/// stored spelling and for the value alike; a new name goes to the end.
pub open spec fn add_spec(
    m: Seq<(Seq<u8>, Seq<u8>)>,
    name: Seq<u8>,
    value: Seq<u8>,
) -> Seq<(Seq<u8>, Seq<u8>)> {
    let k = first_match_spec(m, lower_spec(name));
    if k < 0 {
        m.push((name, value))
    } else {
        m.update(k, (name, value))
    }
}

/// No two entries share a lowercased name.
pub open spec fn wf_headers(m: Seq<(Seq<u8>, Seq<u8>)>) -> bool {
    forall|i: int, j: int|
        0 <= i < j < m.len() ==> lower_spec(#[trigger] m[i].0) != lower_spec(#[trigger] m[j].0)
}

pub proof fn lemma_add_wf(m: Seq<(Seq<u8>, Seq<u8>)>, name: Seq<u8>, value: Seq<u8>)
    requires
        wf_headers(m),
    ensures
        wf_headers(add_spec(m, name, value)),
{
    lemma_first_match(m, lower_spec(name));
    let k = first_match_spec(m, lower_spec(name));
    let m2 = add_spec(m, name, value);
    if k < 0 {
        assert forall|i: int, j: int| 0 <= i < j < m2.len() implies lower_spec(
            #[trigger] m2[i].0,
        ) != lower_spec(#[trigger] m2[j].0) by {
            if j == m.len() {
                assert(lower_spec(m[i].0) != lower_spec(name));
            }
        }
    } else {
        assert(lower_spec(m[k].0) == lower_spec(name));
        assert forall|i: int, j: int| 0 <= i < j < m2.len() implies lower_spec(
            #[trigger] m2[i].0,
        ) != lower_spec(#[trigger] m2[j].0) by {
            assert(lower_spec(m2[i].0) == lower_spec(m[i].0));
            assert(lower_spec(m2[j].0) == lower_spec(m[j].0));
        }
    }
}

/// How `add` changes what `lookup_spec` sees: exactly the added name's key
/// now maps to the new value; every other key is untouched.
pub proof fn lemma_add_lookup(
    m: Seq<(Seq<u8>, Seq<u8>)>,
    name: Seq<u8>,
    value: Seq<u8>,
    key: Seq<u8>,
)
    ensures
        lookup_spec(add_spec(m, name, value), key) == if key == lower_spec(name) {
            Some(value)
        } else {
            lookup_spec(m, key)
        },
{
    let nk = lower_spec(name);
    lemma_first_match(m, nk);
    lemma_first_match(m, key);
    let k = first_match_spec(m, nk);
    let m2 = add_spec(m, name, value);
    if k < 0 {
        if key == nk {
            lemma_first_match_at(m2, key, m.len() as int);
        } else {
            let t = first_match_spec(m, key);
            if t >= 0 {
                lemma_first_match_at(m2, key, t);
            } else {
                lemma_first_match_none(m2, key);
            }
        }
    } else {
        if key == nk {
            lemma_first_match_at(m2, key, k);
        } else {
            let t = first_match_spec(m, key);
            if t >= 0 {
                assert(lower_spec(m2[t].0) == key);
                lemma_first_match_at(m2, key, t);
                assert(m2[t].1 == m[t].1);
            } else {
                lemma_first_match_none(m2, key);
            }
        }
    }
}

/// The header table. Entries are kept in order of first insertion; a
/// re-insertion under a case-insensitive name replaces in place.
#[derive(Debug)]
pub struct Headers {
    entries: Vec<HeaderEntry>,
}

impl View for Headers {
    type V = Seq<(Seq<u8>, Seq<u8>)>;

    closed spec fn view(&self) -> Seq<(Seq<u8>, Seq<u8>)> {
        self.entries@.map_values(|e: HeaderEntry| e@)
    }
}

impl Headers {
    pub fn new() -> (r: Headers)
        ensures
            r@ == Seq::<(Seq<u8>, Seq<u8>)>::empty(),
            wf_headers(r@),
    {
        let r = Headers { entries: Vec::new() };
        proof {
            assert(r@ =~= Seq::<(Seq<u8>, Seq<u8>)>::empty());
        }
        r
    }

    /// Index of the first entry whose lowercased name equals `key_lower`.
    fn find_index(&self, key_lower: &Vec<u8>) -> (r: Option<usize>)
        ensures
            match r {
                Some(i) => i < self.entries@.len() && first_match_spec(self@, key_lower@) == i,
                None => first_match_spec(self@, key_lower@) == -1,
            },
    {
        let mut i: usize = 0;
        let n = self.entries.len();
        while i < n
            invariant
                i <= n,
                n == self.entries@.len(),
                self@ == self.entries@.map_values(|e: HeaderEntry| e@),
                forall|j: int| 0 <= j < i ==> lower_spec(#[trigger] self@[j].0) != key_lower@,
            decreases n - i,
        {
            let ln = lower_bytes(&self.entries[i].name);
            if crate::bytes::bytes_eq(&ln, key_lower) {
                proof {
                    assert(lower_spec(self@[i as int].0) == key_lower@);
                    lemma_first_match_at(self@, key_lower@, i as int);
                }
                return Some(i);
            }
            proof {
                assert(lower_spec(self@[i as int].0) != key_lower@);
            }
            i = i + 1;
        }
        proof {
            lemma_first_match_none(self@, key_lower@);
        }
        None
    }

    /// Insert or overwrite; the lowercased name decides which entry is hit.
    pub fn add(&mut self, name: Vec<u8>, value: Vec<u8>)
        requires
            wf_headers(old(self)@),
        ensures
            final(self)@ == add_spec(old(self)@, name@, value@),
            wf_headers(final(self)@),
    {
        proof {
            lemma_add_wf(self@, name@, value@);
        }
        let key = lower_bytes(&name);
        match self.find_index(&key) {
            Some(i) => {
                let ghost m = self@;
                self.entries.set(i, HeaderEntry { name, value });
                proof {
                    assert(self@ =~= m.update(i as int, (name@, value@)));
                }
            },
            None => {
                let ghost m = self@;
                self.entries.push(HeaderEntry { name, value });
                proof {
                    assert(self@ =~= m.push((name@, value@)));
                }
            },
        }
    }

    /// Case-insensitive lookup of a copy of the stored value.
    pub fn get(&self, key: &Vec<u8>) -> (r: Option<Vec<u8>>)
        ensures
            match r {
                Some(v) => lookup_spec(self@, lower_spec(key@)) == Some(v@),
                None => lookup_spec(self@, lower_spec(key@)) is None,
            },
    {
        let kl = lower_bytes(key);
        match self.find_index(&kl) {
            Some(i) => {
                let v = &self.entries[i].value;
                let out = subvec(v, 0, v.len());
                proof {
                    assert(out@ =~= self@[i as int].1);
                }
                Some(out)
            },
            None => None,
        }
    }

    /// The declared body length: the `Content-Length` value read as a
    /// non-negative integer. `ParsingError` reports an absent header,
    /// `MissingHeader` one that is present but does not read as such an
    /// integer that fits the machine.
    pub fn get_content_length(&self) -> (r: Result<usize, HTTPError>)
        ensures
            ({
                let v = lookup_spec(self@, lower_spec(content_length_name()));
                match r {
                    Ok(l) => match v {
                        Some(val) => is_dec_digits(val) && dec_value_spec(val) == l as nat,
                        None => false,
                    },
                    Err(HTTPError::MissingHeader { header }) => header@ == content_length_name()
                        && match v {
                        Some(val) => !(is_dec_digits(val) && dec_value_spec(val) <= usize::MAX),
                        None => false,
                    },
                    Err(HTTPError::ParsingError { header }) => header@ == content_length_name()
                        && v is None,
                    Err(HTTPError::Unknown) => false,
                }
            }),
    {
        let key = content_length_key();
        match self.get(&key) {
            Some(value) => match parse_dec(&value) {
                Some(l) => Ok(l),
                None => Err(HTTPError::MissingHeader { header: key }),
            },
            None => Err(HTTPError::ParsingError { header: key }),
        }
    }

    /// The entries in storage order; serialization must not depend on the
    /// order beyond what the view promises.
    pub fn iter(&self) -> (r: &Vec<HeaderEntry>)
        ensures
            r@.map_values(|e: HeaderEntry| e@) == self@,
    {
        &self.entries
    }
}

} // verus!

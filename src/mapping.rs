//! How the key-information store lays out its mappings on disk:
//! `<root>/<base64url(app)>/<provider tag in decimal>/<base64url(key name)>`,
//! each file holding the key identifier.
use vstd::prelude::*;
use vstd::utf8::{valid_utf8, decode_utf8, encode_utf8, encode_utf8_decode_utf8, encode_utf8_valid_utf8};
use crate::key_info::{
    ApplicationName, KeyTriple, KeyTripleView, OnDiskKeyIDManager, map_of, unique_keys, has_key,
};
use crate::requests::{ProviderID, provider_tag, provider_from_tag, lemma_provider_from_tag};

verus! {

/// The URL-safe base64 text of some bytes.
pub uninterp spec fn base64url_of(b: Seq<u8>) -> Seq<char>;

/// The bytes that a URL-safe base64 text decodes to, if it is one.
pub uninterp spec fn base64url_decoded(s: Seq<char>) -> Option<Seq<u8>>;

/// The characters of the URL-safe base64 alphabet, with its padding: no
/// path separator among them.
pub open spec fn url_safe_char(c: char) -> bool {
    ('A' <= c <= 'Z') || ('a' <= c <= 'z') || ('0' <= c <= '9') || c == '-' || c == '_' || c == '='
}

/// Every character of the text is URL-safe.
pub open spec fn url_safe_text(s: Seq<char>) -> bool {
    forall|i: int| 0 <= i < s.len() ==> url_safe_char(#[trigger] s[i])
}

/// Relies on `base64::encode_config` with the `URL_SAFE` alphabet: the text
/// depends on the bytes alone, and is written with that alphabet and '='.
#[verifier::external_body]
fn base64url_encode(b: &[u8]) -> (r: String)
    ensures
        r@ == base64url_of(b@),
        url_safe_text(r@),
{
    base64::encode_config(b, base64::URL_SAFE)
}

/// Relies on `base64::decode_config` with the `URL_SAFE` alphabet: the result
/// depends on the text alone, and the text that `encode_config` makes of some
/// bytes decodes to those bytes.
#[verifier::external_body]
fn base64url_decode(s: &str) -> (r: Option<Vec<u8>>)
    ensures
        match r {
            Some(b) => base64url_decoded(s@) == Some(b@),
            None => base64url_decoded(s@) is None,
        },
        forall|b: Seq<u8>| #[trigger] base64url_of(b) == s@ ==> r is Some && r.unwrap()@ == b,
{
    match base64::decode_config(s, base64::URL_SAFE) {
        Ok(v) => Some(v),
        Err(_) => None,
    }
}

/// Relies on `String::from_utf8`: it accepts exactly the valid UTF-8 bytes,
/// and the string holds the characters they encode.
#[verifier::external_body]
pub(crate) fn string_from_utf8(b: Vec<u8>) -> (r: Option<String>)
    ensures
        r is Some <==> valid_utf8(b@),
        r matches Some(s) ==> s@ == decode_utf8(b@),
{
    String::from_utf8(b).ok()
}

/// The character of a decimal digit.
pub open spec fn digit_char(d: u8) -> char {
    ((d + 48) as u8) as char
}

/// The decimal text of a number, without leading zeros.
pub open spec fn decimal_of(v: u8) -> Seq<char> {
    if v < 10 {
        seq![digit_char(v)]
    } else if v < 100 {
        seq![digit_char(v / 10), digit_char(v % 10)]
    } else {
        seq![digit_char(v / 100), digit_char((v / 10) % 10), digit_char(v % 10)]
    }
}

/// Relies on `u8::to_string`, which writes the number in decimal.
#[verifier::external_body]
fn u8_to_decimal(v: u8) -> (r: String)
    ensures
        r@ == decimal_of(v),
{
    v.to_string()
}

/// Every character is a decimal digit.
pub open spec fn all_digits(s: Seq<char>) -> bool {
    forall|i: int| 0 <= i < s.len() ==> '0' <= #[trigger] s[i] <= '9'
}

/// The number that a string of decimal digits writes.
pub open spec fn digits_value(s: Seq<char>) -> int
    decreases s.len(),
{
    if s.len() == 0 {
        0
    } else {
        digits_value(s.drop_last()) * 10 + (s.last() as int - '0' as int)
    }
}

/// The digits of a decimal text: the text after an optional leading '+'.
pub open spec fn decimal_digits(s: Seq<char>) -> Seq<char> {
    if s.len() > 0 && s[0] == '+' {
        s.drop_first()
    } else {
        s
    }
}

/// The number that a decimal text writes, as `u8`'s parser reads it: an
/// optional '+', then at least one digit, and a value of at most 255.
pub open spec fn decimal_value(s: Seq<char>) -> Option<u8> {
    let d = decimal_digits(s);
    if d.len() > 0 && all_digits(d) && digits_value(d) <= 255 {
        Some(digits_value(d) as u8)
    } else {
        None
    }
}

/// Reading the decimal text of a number gives the number.
pub proof fn lemma_decimal_round_trip(v: u8)
    ensures
        decimal_value(decimal_of(v)) == Some(v),
{
    let s = decimal_of(v);
    assert(decimal_digits(s) == s);
    reveal_with_fuel(digits_value, 4);
    if v < 10 {
        assert(s.drop_last() =~= Seq::<char>::empty());
    } else if v < 100 {
        assert(s.drop_last() =~= seq![digit_char(v / 10)]);
        assert(s.drop_last().drop_last() =~= Seq::<char>::empty());
    } else {
        assert(s.drop_last() =~= seq![digit_char(v / 100), digit_char((v / 10) % 10)]);
        assert(s.drop_last().drop_last() =~= seq![digit_char(v / 100)]);
        assert(s.drop_last().drop_last().drop_last() =~= Seq::<char>::empty());
    }
}

/// The number that a decimal text writes, if it is non-empty, made of digits
/// only and at most 255.
pub fn parse_decimal_u8(s: &str) -> (r: Option<u8>)
    ensures
        r == decimal_value(s@),
{
    let n = s.unicode_len();
    let start: usize = if n > 0 && s.get_char(0) == '+' {
        1
    } else {
        0
    };
    let ghost d = decimal_digits(s@);
    assert(d =~= s@.subrange(start as int, n as int));
    if n == start {
        return None;
    }
    let mut acc: u32 = 0;
    let mut i: usize = start;
    assert(s@.subrange(start as int, start as int) =~= Seq::<char>::empty());
    while i < n
        invariant
            n == s@.len(),
            start <= i <= n,
            d == s@.subrange(start as int, n as int),
            d == decimal_digits(s@),
            all_digits(s@.subrange(start as int, i as int)),
            acc as int == if digits_value(s@.subrange(start as int, i as int)) < 256 {
                digits_value(s@.subrange(start as int, i as int))
            } else {
                256
            },
        decreases n - i,
    {
        let c = s.get_char(i);
        if c < '0' || c > '9' {
            assert(!all_digits(d)) by {
                assert(d[i - start] == c);
            }
            return None;
        }
        let dg = (c as u32) - 48;
        let ghost pre = s@.subrange(start as int, i as int);
        let ghost cur = s@.subrange(start as int, i + 1);
        assert(cur.drop_last() =~= pre);
        assert(cur.last() == c);
        assert(digits_value(cur) == digits_value(pre) * 10 + dg);
        assert(digits_value(pre) >= 0) by {
            lemma_digits_value_nonneg(pre);
        }
        if acc * 10 + dg >= 256 {
            acc = 256;
        } else {
            acc = acc * 10 + dg;
        }
        assert(all_digits(cur)) by {
            assert forall|j: int| 0 <= j < cur.len() implies '0' <= #[trigger] cur[j] <= '9' by {
                if j < i - start {
                    assert(cur[j] == pre[j]);
                }
            }
        }
        i = i + 1;
    }
    if acc <= 255 {
        Some(acc as u8)
    } else {
        None
    }
}

proof fn lemma_digits_value_nonneg(s: Seq<char>)
    requires
        all_digits(s),
    ensures
        digits_value(s) >= 0,
    decreases s.len(),
{
    if s.len() > 0 {
        assert(all_digits(s.drop_last())) by {
            assert forall|j: int| 0 <= j < s.drop_last().len() implies '0' <= #[trigger] s.drop_last()[j]
                <= '9' by {
                assert(s.drop_last()[j] == s[j]);
            }
        }
        lemma_digits_value_nonneg(s.drop_last());
        assert(s[s.len() - 1] >= '0');
    }
}

/// A mapping file as the store lays it out.
pub struct MappingFileView {
    pub app_dir: Seq<char>,
    pub provider_dir: Seq<char>,
    pub key_file: Seq<char>,
    pub key_id: Seq<u8>,
}

/// A mapping file: the names of its two directories and its own name, under
/// the mappings directory, and the key identifier it holds.
#[derive(PartialEq, Eq, Clone, Debug)]
pub struct MappingFile {
    pub app_dir: String,
    pub provider_dir: String,
    pub key_file: String,
    pub key_id: Vec<u8>,
}

impl View for MappingFile {
    type V = MappingFileView;

    open spec fn view(&self) -> MappingFileView {
        MappingFileView {
            app_dir: self.app_dir@,
            provider_dir: self.provider_dir@,
            key_file: self.key_file@,
            key_id: self.key_id@,
        }
    }
}

/// The file that holds the mapping of a triple to a key identifier.
pub open spec fn mapping_file_of(t: KeyTripleView, key_id: Seq<u8>) -> MappingFileView {
    MappingFileView {
        app_dir: base64url_of(encode_utf8(t.app)),
        provider_dir: decimal_of(provider_tag(t.provider)),
        key_file: base64url_of(encode_utf8(t.key)),
        key_id,
    }
}

/// The files of a list of mappings.
pub open spec fn mapping_files_of(es: Seq<(KeyTripleView, Seq<u8>)>) -> Seq<MappingFileView> {
    es.map_values(|e: (KeyTripleView, Seq<u8>)| mapping_file_of(e.0, e.1))
}

/// The name that a file or directory name encodes, if it encodes one.
pub open spec fn name_of_file(s: Seq<char>) -> Option<Seq<char>> {
    match base64url_decoded(s) {
        Some(b) => if valid_utf8(b) {
            Some(decode_utf8(b))
        } else {
            None
        },
        None => None,
    }
}

/// The triple that a mapping file stands for, if its names decode to one.
pub open spec fn triple_of_file(f: MappingFileView) -> Option<KeyTripleView> {
    match (name_of_file(f.app_dir), decimal_value(f.provider_dir), name_of_file(f.key_file)) {
        (Some(app), Some(p), Some(key)) => if p < 5 {
            Some(KeyTripleView { app, provider: provider_from_tag(p), key })
        } else {
            None
        },
        _ => None,
    }
}

/// The mappings that a list of files gives, read in order: a file whose names
/// do not decode is skipped, and a later file of the same triple wins.
pub open spec fn loaded_map(fs: Seq<MappingFileView>) -> Map<KeyTripleView, Seq<u8>>
    decreases fs.len(),
{
    if fs.len() == 0 {
        Map::empty()
    } else {
        match triple_of_file(fs.last()) {
            Some(t) => loaded_map(fs.drop_last()).insert(t, fs.last().key_id),
            None => loaded_map(fs.drop_last()),
        }
    }
}

/// The name encoded by a file or directory name.
fn decode_name(s: &String) -> (r: Option<String>)
    ensures
        match r {
            Some(n) => name_of_file(s@) == Some(n@),
            None => name_of_file(s@) is None,
        },
        forall|n: Seq<char>| #[trigger] base64url_of(encode_utf8(n)) == s@ ==> (r matches Some(x)
            && x@ == n),
{
    let decoded = base64url_decode(s.as_str());
    match decoded {
        Some(b) => {
            let r = string_from_utf8(b);
            proof {
                assert forall|n: Seq<char>| #[trigger] base64url_of(encode_utf8(n)) == s@ implies (r matches Some(x)
                    && x@ == n) by {
                    encode_utf8_valid_utf8(n);
                    encode_utf8_decode_utf8(n);
                }
            }
            r
        },
        None => {
            proof {
                assert forall|n: Seq<char>| #[trigger] base64url_of(encode_utf8(n)) == s@ implies (decoded matches Some(x)) by {}
            }
            None
        },
    }
}

/// The file or directory name that encodes a name.
fn encode_name(s: &String) -> (r: String)
    ensures
        r@ == base64url_of(encode_utf8(s@)),
        url_safe_text(r@),
{
    let bytes = s.as_str().as_bytes_vec();
    base64url_encode(bytes.as_slice())
}

impl MappingFile {
    /// The file that holds the mapping of a triple to a key identifier.
    pub fn of(key_triple: &KeyTriple, key_id: &Vec<u8>) -> (r: MappingFile)
        ensures
            r@ == mapping_file_of(key_triple@, key_id@),
            url_safe_text(r.app_dir@) && url_safe_text(r.key_file@),
    {
        MappingFile {
            app_dir: encode_name(key_triple.app_name.get_name()),
            provider_dir: u8_to_decimal(key_triple.provider_id.to_u8()),
            key_file: encode_name(&key_triple.key_name),
            key_id: key_id.clone(),
        }
    }

    /// The triple that the file stands for, if its names decode to one.
    pub fn triple(&self) -> (r: Option<KeyTriple>)
        ensures
            match r {
                Some(t) => triple_of_file(self@) == Some(t@),
                None => triple_of_file(self@) is None,
            },
            forall|t: KeyTripleView, v: Seq<u8>| #[trigger] mapping_file_of(t, v) == self@ ==> (r matches Some(x)
                && x@ == t),
    {
        let app = decode_name(&self.app_dir);
        let provider = parse_decimal_u8(self.provider_dir.as_str());
        let key = decode_name(&self.key_file);
        proof {
            assert forall|t: KeyTripleView, v: Seq<u8>| #[trigger] mapping_file_of(t, v) == self@ implies (
            app matches Some(a) && a@ == t.app) && (key matches Some(k) && k@ == t.key) && provider == Some(
                provider_tag(t.provider),
            ) by {
                assert(base64url_of(encode_utf8(t.app)) == self.app_dir@);
                assert(base64url_of(encode_utf8(t.key)) == self.key_file@);
                lemma_decimal_round_trip(provider_tag(t.provider));
                lemma_provider_from_tag(t.provider);
            }
        }
        match (app, provider, key) {
            (Some(a), Some(p), Some(k)) => {
                if p < 5 {
                    match ProviderID::from_u8(p) {
                        Some(pid) => Some(KeyTriple::new(ApplicationName::new(a), pid, k)),
                        None => None,
                    }
                } else {
                    None
                }
            },
            _ => None,
        }
    }
}

impl OnDiskKeyIDManager {
    /// A store over the given mappings directory holding the mappings of the
    /// files found there; files whose names do not decode are skipped.
    ///
    /// Where the files are those that a store of some mappings wrote, in any
    /// order, the new store holds exactly those mappings.
    pub fn new(mappings_dir_path: String, files: &Vec<MappingFile>) -> (r:
        OnDiskKeyIDManager)
        ensures
            r.wf(),
            r.spec_dir() == mappings_dir_path@,
            r@ == loaded_map(files@.map_values(|f: MappingFile| f@)),
            forall|es: Seq<(KeyTripleView, Seq<u8>)>|
                unique_keys(es) && #[trigger] mapping_files_of(es) == files@.map_values(
                    |f: MappingFile| f@,
                ) ==> r@ == map_of(es),
    {
        let ghost fv = files@.map_values(|f: MappingFile| f@);
        let mut store = OnDiskKeyIDManager::empty(mappings_dir_path);
        let mut i: usize = 0;
        assert(fv.subrange(0, 0) =~= Seq::<MappingFileView>::empty());
        proof {
            assert forall|es: Seq<(KeyTripleView, Seq<u8>)>|
                unique_keys(es) && #[trigger] mapping_files_of(es) == fv implies store@ == map_of(
                    es.subrange(0, 0),
                ) by {
                assert(map_of(es.subrange(0, 0)) =~= Map::<KeyTripleView, Seq<u8>>::empty());
            }
        }
        while i < files.len()
            invariant
                i <= files@.len(),
                fv == files@.map_values(|f: MappingFile| f@),
                store.wf(),
                store.spec_dir() == mappings_dir_path@,
                store@ == loaded_map(fv.subrange(0, i as int)),
                forall|es: Seq<(KeyTripleView, Seq<u8>)>|
                    unique_keys(es) && #[trigger] mapping_files_of(es) == fv ==> store@ == map_of(
                        es.subrange(0, i as int),
                    ),
            decreases files@.len() - i,
        {
            let f = &files[i];
            let ghost before = store@;
            let t = f.triple();
            let ghost tv = t;
            match t {
                Some(t) => {
                    let id = f.key_id.clone();
                    store.insert(t, id);
                },
                None => {},
            }
            proof {
                let pre = fv.subrange(0, i as int);
                let cur = fv.subrange(0, i + 1);
                assert(cur.drop_last() =~= pre);
                assert(cur.last() == f@);
                assert forall|es: Seq<(KeyTripleView, Seq<u8>)>|
                    unique_keys(es) && #[trigger] mapping_files_of(es) == fv implies store@ == map_of(
                        es.subrange(0, i + 1),
                    ) by {
                    assert(es.len() == mapping_files_of(es).len());
                    assert(fv[i as int] == files@[i as int]@);
                    assert(mapping_files_of(es)[i as int] == fv[i as int]);
                    assert(mapping_file_of(es[i as int].0, es[i as int].1) == f@);
                    let e0 = es.subrange(0, i as int);
                    let e1 = es.subrange(0, i + 1);
                    assert(e1 =~= e0.push(es[i as int]));
                    assert(unique_keys(e0)) by {
                        assert forall|a: int, b: int|
                            0 <= a < e0.len() && 0 <= b < e0.len() && #[trigger] e0[a].0
                                == #[trigger] e0[b].0 implies a == b by {
                            assert(e0[a] == es[a] && e0[b] == es[b]);
                        }
                    }
                    assert(!has_key(e0, es[i as int].0)) by {
                        if has_key(e0, es[i as int].0) {
                            let j = choose|j: int| 0 <= j < e0.len() && #[trigger] e0[j].0 == es[i as int].0;
                            assert(es[j].0 == es[i as int].0);
                        }
                    }
                    crate::key_info::lemma_map_of_push(e0, es[i as int].0, es[i as int].1);
                }
            }
            i = i + 1;
        }
        assert(fv.subrange(0, i as int) =~= fv);
        proof {
            assert forall|es: Seq<(KeyTripleView, Seq<u8>)>|
                unique_keys(es) && #[trigger] mapping_files_of(es) == fv implies store@ == map_of(es) by {
                assert(es.len() == fv.len());
                assert(es.subrange(0, i as int) =~= es);
            }
        }
        store
    }
}

} // verus!

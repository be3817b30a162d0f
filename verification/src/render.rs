//! The two HTML pages, with the content hashes of their scripts and styles
//! filled in so that browsers may cache those assets for good.
use vstd::prelude::*;
use vstd::utf8::valid_utf8;
use vstd::string::StringSliceAdditionalSpecFns;
use crate::hash::{content_hash, fnv1a, hex16, is_hex_digit, lemma_hex16_ascii, lemma_hex16_digits};
use crate::text::{lemma_ascii_utf8, bytes_eq};

verus! {

broadcast use vstd::utf8::encode_utf8_decode_utf8;

/// `s` with every occurrence of `p` replaced by `r`, matches taken left to
/// right without overlap (`str::replace`).
pub open spec fn replace_all(s: Seq<u8>, p: Seq<u8>, r: Seq<u8>) -> Seq<u8>
    decreases s.len(),
{
    if p.len() == 0 || s.len() < p.len() {
        s
    } else if s.subrange(0, p.len() as int) == p {
        r + replace_all(s.subrange(p.len() as int, s.len() as int), p, r)
    } else {
        seq![s[0]] + replace_all(s.subrange(1, s.len() as int), p, r)
    }
}

/// `s` with every occurrence of the non-empty `p` replaced by `r`.
pub fn replace_bytes(s: &[u8], p: &[u8], r: &[u8]) -> (out: Vec<u8>)
    requires
        p@.len() > 0,
    ensures
        out@ == replace_all(s@, p@, r@),
{
    let mut out: Vec<u8> = Vec::new();
    let mut i: usize = 0;
    assert(s@.subrange(0, s@.len() as int) =~= s@);
    while i < s.len()
        invariant
            i <= s@.len(),
            p@.len() > 0,
            replace_all(s@, p@, r@) == out@ + replace_all(s@.subrange(i as int, s@.len() as int), p@, r@),
        decreases s@.len() - i,
    {
        let ghost rest = s@.subrange(i as int, s@.len() as int);
        if s.len() - i >= p.len() && bytes_eq(&s[i..i + p.len()], p) {
            assert(rest.subrange(0, p@.len() as int) =~= s@.subrange(i as int, i + p@.len()));
            assert(rest.subrange(p@.len() as int, rest.len() as int) =~= s@.subrange(i + p@.len(), s@.len() as int));
            let mut k: usize = 0;
            let ghost before = out@;
            while k < r.len()
                invariant
                    k <= r@.len(),
                    out@ == before + r@.subrange(0, k as int),
                decreases r@.len() - k,
            {
                out.push(r[k]);
                k = k + 1;
                assert(out@ =~= before + r@.subrange(0, k as int));
            }
            assert(r@.subrange(0, r@.len() as int) =~= r@);
            assert(before + (r@ + replace_all(s@.subrange(i + p@.len(), s@.len() as int), p@, r@)) =~= out@
                + replace_all(s@.subrange(i + p@.len(), s@.len() as int), p@, r@));
            i = i + p.len();
        } else {
            assert(s.len() - i >= p.len() ==> rest.subrange(0, p@.len() as int) =~= s@.subrange(i as int, i + p@.len()));
            assert(rest.subrange(1, rest.len() as int) =~= s@.subrange(i + 1, s@.len() as int));
            let ghost before = out@;
            out.push(s[i]);
            if s.len() - i < p.len() {
                assert(replace_all(rest, p@, r@) == rest);
                assert(replace_all(rest.subrange(1, rest.len() as int), p@, r@) == rest.subrange(1, rest.len() as int));
                assert(rest =~= seq![s@[i as int]] + rest.subrange(1, rest.len() as int));
            }
            assert(before + (seq![s@[i as int]] + replace_all(s@.subrange(i + 1, s@.len() as int), p@, r@)) =~= out@
                + replace_all(s@.subrange(i + 1, s@.len() as int), p@, r@));
            i = i + 1;
        }
    }
    assert(s@.subrange(i as int, s@.len() as int) =~= Seq::<u8>::empty());
    assert(out@ + Seq::<u8>::empty() =~= out@);
    out
}

/// What `String::from_utf8_lossy` gives for `b`, as bytes.
pub uninterp spec fn lossy_utf8(b: Seq<u8>) -> Seq<u8>;

/// `String::from_utf8_lossy`, as bytes: claimed to give [`lossy_utf8`] of
/// the input, which depends on the input alone, and the input itself when it
/// is valid UTF-8 (the documentation: invalid sequences are replaced by
/// U+FFFD, valid input is borrowed unchanged).
#[verifier::external_body]
fn utf8_lossy(bytes: &[u8]) -> (r: Vec<u8>)
    ensures
        r@ == lossy_utf8(bytes@),
        valid_utf8(bytes@) ==> r@ == bytes@,
{
    String::from_utf8_lossy(bytes).into_owned().into_bytes()
}

/// The files the web interface is made of.
pub struct Assets {
    /// Template of the speed test page.
    pub index: Vec<u8>,
    /// Template of the results page.
    pub results_index: Vec<u8>,
    pub style: Vec<u8>,
    pub locale_en: Vec<u8>,
    pub locale_lv: Vec<u8>,
    pub i18n: Vec<u8>,
    pub chart: Vec<u8>,
    pub app: Vec<u8>,
    pub results_app: Vec<u8>,
}

/// The fingerprint of `content`, as bytes.
pub open spec fn hash_of(content: Seq<u8>) -> Seq<u8> {
    hex16(fnv1a(content))
}

/// The speed test page: the template, read as UTF-8 with invalid sequences
/// replaced, with the placeholders of the stylesheet, the two locales, the
/// i18n, chart and app scripts replaced by their fingerprints, in that order.
pub open spec fn rendered_index_spec(a: &Assets) -> Seq<u8> {
    let t = lossy_utf8(a.index@);
    let t1 = replace_all(t, "__STYLE_HASH__".spec_bytes(), hash_of(a.style@));
    let t2 = replace_all(t1, "__LOCALE_EN_HASH__".spec_bytes(), hash_of(a.locale_en@));
    let t3 = replace_all(t2, "__LOCALE_LV_HASH__".spec_bytes(), hash_of(a.locale_lv@));
    let t4 = replace_all(t3, "__I18N_HASH__".spec_bytes(), hash_of(a.i18n@));
    let t5 = replace_all(t4, "__CHART_HASH__".spec_bytes(), hash_of(a.chart@));
    replace_all(t5, "__APP_HASH__".spec_bytes(), hash_of(a.app@))
}

/// The results page: as the speed test page, with the results script in
/// place of the app script.
pub open spec fn rendered_results_index_spec(a: &Assets) -> Seq<u8> {
    let t = lossy_utf8(a.results_index@);
    let t1 = replace_all(t, "__STYLE_HASH__".spec_bytes(), hash_of(a.style@));
    let t2 = replace_all(t1, "__LOCALE_EN_HASH__".spec_bytes(), hash_of(a.locale_en@));
    let t3 = replace_all(t2, "__LOCALE_LV_HASH__".spec_bytes(), hash_of(a.locale_lv@));
    let t4 = replace_all(t3, "__I18N_HASH__".spec_bytes(), hash_of(a.i18n@));
    let t5 = replace_all(t4, "__CHART_HASH__".spec_bytes(), hash_of(a.chart@));
    replace_all(t5, "__RESULTS_HASH__".spec_bytes(), hash_of(a.results_app@))
}

/// `t` with placeholder `p` replaced by the fingerprint of `content`.
fn fill(t: &[u8], p: &str, content: &[u8]) -> (r: Vec<u8>)
    requires
        p.spec_bytes().len() > 0,
    ensures
        r@ == replace_all(t@, p.spec_bytes(), hash_of(content@)),
{
    let h = content_hash(content);
    proof {
        lemma_hex16_ascii(fnv1a(content@));
        lemma_ascii_utf8(hex16(fnv1a(content@)));
    }
    replace_bytes(t, p.as_bytes(), h.as_str().as_bytes())
}

proof fn lemma_placeholders_nonempty()
    ensures
        "__STYLE_HASH__".spec_bytes().len() > 0,
        "__LOCALE_EN_HASH__".spec_bytes().len() > 0,
        "__LOCALE_LV_HASH__".spec_bytes().len() > 0,
        "__I18N_HASH__".spec_bytes().len() > 0,
        "__CHART_HASH__".spec_bytes().len() > 0,
        "__APP_HASH__".spec_bytes().len() > 0,
        "__RESULTS_HASH__".spec_bytes().len() > 0,
{
    reveal_strlit("__STYLE_HASH__");
    reveal_strlit("__LOCALE_EN_HASH__");
    reveal_strlit("__LOCALE_LV_HASH__");
    reveal_strlit("__I18N_HASH__");
    reveal_strlit("__CHART_HASH__");
    reveal_strlit("__APP_HASH__");
    reveal_strlit("__RESULTS_HASH__");
    vstd::string::is_ascii_spec_bytes("__STYLE_HASH__");
    vstd::string::is_ascii_spec_bytes("__LOCALE_EN_HASH__");
    vstd::string::is_ascii_spec_bytes("__LOCALE_LV_HASH__");
    vstd::string::is_ascii_spec_bytes("__I18N_HASH__");
    vstd::string::is_ascii_spec_bytes("__CHART_HASH__");
    vstd::string::is_ascii_spec_bytes("__APP_HASH__");
    vstd::string::is_ascii_spec_bytes("__RESULTS_HASH__");
}

/// The speed test page, with asset fingerprints filled in.
pub fn rendered_index(a: &Assets) -> (r: Vec<u8>)
    ensures
        r@ == rendered_index_spec(a),
        valid_utf8(a.index@) && contains(a.index@, "__STYLE_HASH__".spec_bytes())
            ==> contains(r@, hash_of(a.style@)),
        valid_utf8(a.index@) && contains(a.index@, "__LOCALE_EN_HASH__".spec_bytes()) && !contains(a.index@, "__STYLE_HASH__".spec_bytes())
            ==> contains(r@, hash_of(a.locale_en@)),
        valid_utf8(a.index@) && contains(a.index@, "__LOCALE_LV_HASH__".spec_bytes()) && !contains(a.index@, "__STYLE_HASH__".spec_bytes()) && !contains(a.index@, "__LOCALE_EN_HASH__".spec_bytes())
            ==> contains(r@, hash_of(a.locale_lv@)),
        valid_utf8(a.index@) && contains(a.index@, "__I18N_HASH__".spec_bytes()) && !contains(a.index@, "__STYLE_HASH__".spec_bytes()) && !contains(a.index@, "__LOCALE_EN_HASH__".spec_bytes()) && !contains(a.index@, "__LOCALE_LV_HASH__".spec_bytes())
            ==> contains(r@, hash_of(a.i18n@)),
        valid_utf8(a.index@) && contains(a.index@, "__CHART_HASH__".spec_bytes()) && !contains(a.index@, "__STYLE_HASH__".spec_bytes()) && !contains(a.index@, "__LOCALE_EN_HASH__".spec_bytes()) && !contains(a.index@, "__LOCALE_LV_HASH__".spec_bytes()) && !contains(a.index@, "__I18N_HASH__".spec_bytes())
            ==> contains(r@, hash_of(a.chart@)),
        valid_utf8(a.index@) && contains(a.index@, "__APP_HASH__".spec_bytes()) && !contains(a.index@, "__STYLE_HASH__".spec_bytes()) && !contains(a.index@, "__LOCALE_EN_HASH__".spec_bytes()) && !contains(a.index@, "__LOCALE_LV_HASH__".spec_bytes()) && !contains(a.index@, "__I18N_HASH__".spec_bytes()) && !contains(a.index@, "__CHART_HASH__".spec_bytes())
            ==> contains(r@, hash_of(a.app@)),
{
    proof {
        lemma_placeholders_nonempty();
        lemma_rendered_index_hashes(a);
    }
    let t = utf8_lossy(a.index.as_slice());
    let t = fill(t.as_slice(), "__STYLE_HASH__", a.style.as_slice());
    let t = fill(t.as_slice(), "__LOCALE_EN_HASH__", a.locale_en.as_slice());
    let t = fill(t.as_slice(), "__LOCALE_LV_HASH__", a.locale_lv.as_slice());
    let t = fill(t.as_slice(), "__I18N_HASH__", a.i18n.as_slice());
    let t = fill(t.as_slice(), "__CHART_HASH__", a.chart.as_slice());
    fill(t.as_slice(), "__APP_HASH__", a.app.as_slice())
}

/// The results page, with asset fingerprints filled in.
pub fn rendered_results_index(a: &Assets) -> (r: Vec<u8>)
    ensures
        r@ == rendered_results_index_spec(a),
        valid_utf8(a.results_index@) && contains(a.results_index@, "__STYLE_HASH__".spec_bytes())
            ==> contains(r@, hash_of(a.style@)),
        valid_utf8(a.results_index@) && contains(a.results_index@, "__LOCALE_EN_HASH__".spec_bytes()) && !contains(a.results_index@, "__STYLE_HASH__".spec_bytes())
            ==> contains(r@, hash_of(a.locale_en@)),
        valid_utf8(a.results_index@) && contains(a.results_index@, "__LOCALE_LV_HASH__".spec_bytes()) && !contains(a.results_index@, "__STYLE_HASH__".spec_bytes()) && !contains(a.results_index@, "__LOCALE_EN_HASH__".spec_bytes())
            ==> contains(r@, hash_of(a.locale_lv@)),
        valid_utf8(a.results_index@) && contains(a.results_index@, "__I18N_HASH__".spec_bytes()) && !contains(a.results_index@, "__STYLE_HASH__".spec_bytes()) && !contains(a.results_index@, "__LOCALE_EN_HASH__".spec_bytes()) && !contains(a.results_index@, "__LOCALE_LV_HASH__".spec_bytes())
            ==> contains(r@, hash_of(a.i18n@)),
        valid_utf8(a.results_index@) && contains(a.results_index@, "__CHART_HASH__".spec_bytes()) && !contains(a.results_index@, "__STYLE_HASH__".spec_bytes()) && !contains(a.results_index@, "__LOCALE_EN_HASH__".spec_bytes()) && !contains(a.results_index@, "__LOCALE_LV_HASH__".spec_bytes()) && !contains(a.results_index@, "__I18N_HASH__".spec_bytes())
            ==> contains(r@, hash_of(a.chart@)),
        valid_utf8(a.results_index@) && contains(a.results_index@, "__RESULTS_HASH__".spec_bytes()) && !contains(a.results_index@, "__STYLE_HASH__".spec_bytes()) && !contains(a.results_index@, "__LOCALE_EN_HASH__".spec_bytes()) && !contains(a.results_index@, "__LOCALE_LV_HASH__".spec_bytes()) && !contains(a.results_index@, "__I18N_HASH__".spec_bytes()) && !contains(a.results_index@, "__CHART_HASH__".spec_bytes())
            ==> contains(r@, hash_of(a.results_app@)),
{
    proof {
        lemma_placeholders_nonempty();
        lemma_rendered_results_index_hashes(a);
    }
    let t = utf8_lossy(a.results_index.as_slice());
    let t = fill(t.as_slice(), "__STYLE_HASH__", a.style.as_slice());
    let t = fill(t.as_slice(), "__LOCALE_EN_HASH__", a.locale_en.as_slice());
    let t = fill(t.as_slice(), "__LOCALE_LV_HASH__", a.locale_lv.as_slice());
    let t = fill(t.as_slice(), "__I18N_HASH__", a.i18n.as_slice());
    let t = fill(t.as_slice(), "__CHART_HASH__", a.chart.as_slice());
    fill(t.as_slice(), "__RESULTS_HASH__", a.results_app.as_slice())
}


/// Whether `q` stands in `s` at position `k`.
pub open spec fn occurs_at(s: Seq<u8>, q: Seq<u8>, k: int) -> bool {
    0 <= k && k + q.len() <= s.len() && s.subrange(k, k + q.len()) == q
}

/// Whether `q` stands anywhere in `s`.
pub open spec fn contains(s: Seq<u8>, q: Seq<u8>) -> bool {
    exists|k: int| #[trigger] occurs_at(s, q, k)
}

/// Whether `b` is one of the bytes of `r`.
pub open spec fn is_byte_of(b: u8, r: Seq<u8>) -> bool {
    exists|j: int| 0 <= j < r.len() && #[trigger] r[j] == b
}

/// Whether `q` cannot overlap a copy of `r`: `q` is non-empty, starts and
/// ends with bytes that are not in `r`, and holds no copy of `r`.
pub open spec fn separate(q: Seq<u8>, r: Seq<u8>) -> bool {
    &&& q.len() > 0
    &&& !is_byte_of(q[0], r)
    &&& !is_byte_of(q[q.len() - 1], r)
    &&& !contains(q, r)
}

/// Before the first replacement, the output is the input: a prefix of the
/// output that holds no copy of `r` and does not end inside one is a prefix
/// of the input.
proof fn lemma_replace_prefix(t: Seq<u8>, p: Seq<u8>, r: Seq<u8>, k: int)
    requires
        p.len() > 0,
        r.len() > 0,
        0 <= k <= replace_all(t, p, r).len(),
        k > 0 ==> !is_byte_of(replace_all(t, p, r)[k - 1], r),
        !contains(replace_all(t, p, r).subrange(0, k), r),
    ensures
        k <= t.len(),
        replace_all(t, p, r).subrange(0, k) == t.subrange(0, k),
    decreases t.len(),
{
    let o = replace_all(t, p, r);
    if t.len() < p.len() {
    } else if t.subrange(0, p.len() as int) == p {
        let rest = t.subrange(p.len() as int, t.len() as int);
        assert(o == r + replace_all(rest, p, r));
        if k >= r.len() {
            assert(occurs_at(o.subrange(0, k), r, 0)) by {
                assert(o.subrange(0, k).subrange(0, r.len() as int) =~= r);
            }
        } else if k > 0 {
            assert(o[k - 1] == r[k - 1]);
            assert(is_byte_of(o[k - 1], r));
        }
    } else {
        let t1 = t.subrange(1, t.len() as int);
        let o1 = replace_all(t1, p, r);
        assert(o == seq![t[0]] + o1);
        if k > 0 {
            assert(!contains(o1.subrange(0, k - 1), r)) by {
                if contains(o1.subrange(0, k - 1), r) {
                    let j = choose|j: int| #[trigger] occurs_at(o1.subrange(0, k - 1), r, j);
                    assert(o.subrange(0, k).subrange(j + 1, j + 1 + r.len()) =~= o1.subrange(0, k - 1).subrange(j, j + r.len()));
                    assert(occurs_at(o.subrange(0, k), r, j + 1));
                }
            }
            if k > 1 {
                assert(o1[k - 2] == o[k - 1]);
            }
            lemma_replace_prefix(t1, p, r, k - 1);
            assert(o.subrange(0, k) =~= seq![t[0]] + o1.subrange(0, k - 1));
            assert(t.subrange(0, k) =~= seq![t[0]] + t1.subrange(0, k - 1));
        } else {
            assert(o.subrange(0, 0) =~= t.subrange(0, 0));
        }
    }
}

/// Replacing `p` by `r` creates no new copy of a `q` that cannot overlap `r`.
pub proof fn lemma_replace_keeps_absent(s: Seq<u8>, p: Seq<u8>, r: Seq<u8>, q: Seq<u8>, k: int)
    requires
        p.len() > 0,
        r.len() > 0,
        separate(q, r),
        occurs_at(replace_all(s, p, r), q, k),
    ensures
        contains(s, q),
    decreases s.len(),
{
    let o = replace_all(s, p, r);
    if s.len() < p.len() {
        assert(occurs_at(s, q, k));
    } else if s.subrange(0, p.len() as int) == p {
        let rest = s.subrange(p.len() as int, s.len() as int);
        let o1 = replace_all(rest, p, r);
        assert(o == r + o1);
        if k < r.len() {
            assert(o.subrange(k, k + q.len())[0] == o[k]);
            assert(is_byte_of(q[0], r));
        } else {
            assert(o.subrange(k, k + q.len()) =~= o1.subrange(k - r.len(), k - r.len() + q.len()));
            lemma_replace_keeps_absent(rest, p, r, q, k - r.len());
            let j = choose|j: int| #[trigger] occurs_at(rest, q, j);
            assert(s.subrange(j + p.len(), j + p.len() + q.len()) =~= rest.subrange(j, j + q.len()));
            assert(occurs_at(s, q, j + p.len()));
        }
    } else {
        let s1 = s.subrange(1, s.len() as int);
        let o1 = replace_all(s1, p, r);
        assert(o == seq![s[0]] + o1);
        if k >= 1 {
            assert(o.subrange(k, k + q.len()) =~= o1.subrange(k - 1, k - 1 + q.len()));
            lemma_replace_keeps_absent(s1, p, r, q, k - 1);
            let j = choose|j: int| #[trigger] occurs_at(s1, q, j);
            assert(s.subrange(j + 1, j + 1 + q.len()) =~= s1.subrange(j, j + q.len()));
            assert(occurs_at(s, q, j + 1));
        } else {
            let m = q.len() - 1;
            assert(o1.subrange(0, m) =~= q.subrange(1, q.len() as int)) by {
                assert(o.subrange(0, q.len() as int) == q);
            }
            assert(!contains(o1.subrange(0, m), r)) by {
                if contains(o1.subrange(0, m), r) {
                    let j = choose|j: int| #[trigger] occurs_at(o1.subrange(0, m), r, j);
                    assert(q.subrange(j + 1, j + 1 + r.len()) =~= o1.subrange(0, m).subrange(j, j + r.len()));
                    assert(occurs_at(q, r, j + 1));
                }
            }
            if m > 0 {
                assert(o1[m - 1] == q[q.len() - 1]);
            }
            lemma_replace_prefix(s1, p, r, m);
            assert(s.subrange(0, q.len() as int) =~= seq![s[0]] + s1.subrange(0, m));
            assert(q =~= seq![q[0]] + q.subrange(1, q.len() as int));
            assert(occurs_at(s, q, 0));
        }
    }
}

/// After replacing `p` by `r`, no copy of `p` is left, when `p` cannot overlap `r`.
pub proof fn lemma_replace_removes(s: Seq<u8>, p: Seq<u8>, r: Seq<u8>, k: int)
    requires
        r.len() > 0,
        separate(p, r),
    ensures
        !occurs_at(replace_all(s, p, r), p, k),
    decreases s.len(),
{
    let o = replace_all(s, p, r);
    if s.len() < p.len() {
    } else if s.subrange(0, p.len() as int) == p {
        let rest = s.subrange(p.len() as int, s.len() as int);
        let o1 = replace_all(rest, p, r);
        assert(o == r + o1);
        if occurs_at(o, p, k) {
            if k < r.len() {
                assert(o.subrange(k, k + p.len())[0] == o[k]);
                assert(is_byte_of(p[0], r));
            } else {
                assert(o.subrange(k, k + p.len()) =~= o1.subrange(k - r.len(), k - r.len() + p.len()));
                lemma_replace_removes(rest, p, r, k - r.len());
            }
        }
    } else {
        let s1 = s.subrange(1, s.len() as int);
        let o1 = replace_all(s1, p, r);
        assert(o == seq![s[0]] + o1);
        if occurs_at(o, p, k) {
            if k >= 1 {
                assert(o.subrange(k, k + p.len()) =~= o1.subrange(k - 1, k - 1 + p.len()));
                lemma_replace_removes(s1, p, r, k - 1);
            } else {
                let m = p.len() - 1;
                assert(o1.subrange(0, m) =~= p.subrange(1, p.len() as int)) by {
                    assert(o.subrange(0, p.len() as int) == p);
                }
                assert(!contains(o1.subrange(0, m), r)) by {
                    if contains(o1.subrange(0, m), r) {
                        let j = choose|j: int| #[trigger] occurs_at(o1.subrange(0, m), r, j);
                        assert(p.subrange(j + 1, j + 1 + r.len()) =~= o1.subrange(0, m).subrange(j, j + r.len()));
                        assert(occurs_at(p, r, j + 1));
                    }
                }
                if m > 0 {
                    assert(o1[m - 1] == p[p.len() - 1]);
                }
                lemma_replace_prefix(s1, p, r, m);
                assert(s.subrange(0, p.len() as int) =~= seq![s[0]] + s1.subrange(0, m));
                assert(p =~= seq![p[0]] + p.subrange(1, p.len() as int));
            }
        }
    }
}

/// The shape of a placeholder: between 4 and 19 bytes, two underscores at
/// each end.
pub open spec fn placeholder_shaped(q: Seq<u8>) -> bool {
    &&& 4 <= q.len() <= 19
    &&& q[0] == 0x5f && q[1] == 0x5f
    &&& q[q.len() - 2] == 0x5f && q[q.len() - 1] == 0x5f
}

/// A placeholder cannot overlap a fingerprint: a window of 16 bytes of it
/// always takes in one of its underscores, which no hex digit equals.
proof fn lemma_placeholder_separate(q: Seq<u8>, h: u64)
    requires
        placeholder_shaped(q),
    ensures
        separate(q, hex16(h)),
{
    let r = hex16(h);
    lemma_hex16_digits(h);
    assert(!is_byte_of(0x5f, r)) by {
        if is_byte_of(0x5f, r) {
            let j = choose|j: int| 0 <= j < r.len() && #[trigger] r[j] == 0x5f;
            assert(is_hex_digit(r[j]));
        }
    }
    assert(!contains(q, r)) by {
        if contains(q, r) {
            let k = choose|k: int| #[trigger] occurs_at(q, r, k);
            let w = q.subrange(k, k + 16);
            if k <= 1 {
                assert(w[0] == q[k]);
                assert(is_hex_digit(r[0]));
            } else {
                let m = q.len() - 2 - k;
                assert(w[m] == q[q.len() - 2]);
                assert(is_hex_digit(r[m]));
            }
        }
    }
}

proof fn lemma_placeholders_shaped()
    ensures
        placeholder_shaped("__STYLE_HASH__".spec_bytes()),
        placeholder_shaped("__LOCALE_EN_HASH__".spec_bytes()),
        placeholder_shaped("__LOCALE_LV_HASH__".spec_bytes()),
        placeholder_shaped("__I18N_HASH__".spec_bytes()),
        placeholder_shaped("__CHART_HASH__".spec_bytes()),
        placeholder_shaped("__APP_HASH__".spec_bytes()),
        placeholder_shaped("__RESULTS_HASH__".spec_bytes()),
{
    reveal_strlit("__STYLE_HASH__");
    reveal_strlit("__LOCALE_EN_HASH__");
    reveal_strlit("__LOCALE_LV_HASH__");
    reveal_strlit("__I18N_HASH__");
    reveal_strlit("__CHART_HASH__");
    reveal_strlit("__APP_HASH__");
    reveal_strlit("__RESULTS_HASH__");
    vstd::string::is_ascii_spec_bytes("__STYLE_HASH__");
    vstd::string::is_ascii_spec_bytes("__LOCALE_EN_HASH__");
    vstd::string::is_ascii_spec_bytes("__LOCALE_LV_HASH__");
    vstd::string::is_ascii_spec_bytes("__I18N_HASH__");
    vstd::string::is_ascii_spec_bytes("__CHART_HASH__");
    vstd::string::is_ascii_spec_bytes("__APP_HASH__");
    vstd::string::is_ascii_spec_bytes("__RESULTS_HASH__");
}

/// Replacing `p` by a fingerprint leaves no copy of the placeholder `p`.
proof fn lemma_filled(s: Seq<u8>, p: Seq<u8>, h: u64)
    requires
        placeholder_shaped(p),
    ensures
        !contains(replace_all(s, p, hex16(h)), p),
{
    lemma_placeholder_separate(p, h);
    lemma_hex16_digits(h);
    if contains(replace_all(s, p, hex16(h)), p) {
        let k = choose|k: int| #[trigger] occurs_at(replace_all(s, p, hex16(h)), p, k);
        lemma_replace_removes(s, p, hex16(h), k);
    }
}

/// Replacing a placeholder `p` by a fingerprint brings back no placeholder `q`.
proof fn lemma_stays_filled(s: Seq<u8>, p: Seq<u8>, h: u64, q: Seq<u8>)
    requires
        placeholder_shaped(p),
        placeholder_shaped(q),
        !contains(s, q),
    ensures
        !contains(replace_all(s, p, hex16(h)), q),
{
    lemma_placeholder_separate(q, h);
    lemma_hex16_digits(h);
    if contains(replace_all(s, p, hex16(h)), q) {
        let k = choose|k: int| #[trigger] occurs_at(replace_all(s, p, hex16(h)), q, k);
        lemma_replace_keeps_absent(s, p, hex16(h), q, k);
    }
}

/// Whatever the templates and assets, the speed test page holds none of its
/// six placeholders: each is replaced, and no fingerprint brings one back.
pub proof fn lemma_rendered_index_filled(a: &Assets)
    ensures
        !contains(rendered_index_spec(a), "__STYLE_HASH__".spec_bytes()),
        !contains(rendered_index_spec(a), "__LOCALE_EN_HASH__".spec_bytes()),
        !contains(rendered_index_spec(a), "__LOCALE_LV_HASH__".spec_bytes()),
        !contains(rendered_index_spec(a), "__I18N_HASH__".spec_bytes()),
        !contains(rendered_index_spec(a), "__CHART_HASH__".spec_bytes()),
        !contains(rendered_index_spec(a), "__APP_HASH__".spec_bytes()),
{
    lemma_placeholders_shaped();
    let p = seq![
        "__STYLE_HASH__".spec_bytes(),
        "__LOCALE_EN_HASH__".spec_bytes(),
        "__LOCALE_LV_HASH__".spec_bytes(),
        "__I18N_HASH__".spec_bytes(),
        "__CHART_HASH__".spec_bytes(),
        "__APP_HASH__".spec_bytes(),
    ];
    let h = seq![
        fnv1a(a.style@),
        fnv1a(a.locale_en@),
        fnv1a(a.locale_lv@),
        fnv1a(a.i18n@),
        fnv1a(a.chart@),
        fnv1a(a.app@),
    ];
    lemma_fill_chain(lossy_utf8(a.index@), p, h);
}

/// Whatever the templates and assets, the results page holds none of its
/// six placeholders.
pub proof fn lemma_rendered_results_index_filled(a: &Assets)
    ensures
        !contains(rendered_results_index_spec(a), "__STYLE_HASH__".spec_bytes()),
        !contains(rendered_results_index_spec(a), "__LOCALE_EN_HASH__".spec_bytes()),
        !contains(rendered_results_index_spec(a), "__LOCALE_LV_HASH__".spec_bytes()),
        !contains(rendered_results_index_spec(a), "__I18N_HASH__".spec_bytes()),
        !contains(rendered_results_index_spec(a), "__CHART_HASH__".spec_bytes()),
        !contains(rendered_results_index_spec(a), "__RESULTS_HASH__".spec_bytes()),
{
    lemma_placeholders_shaped();
    let p = seq![
        "__STYLE_HASH__".spec_bytes(),
        "__LOCALE_EN_HASH__".spec_bytes(),
        "__LOCALE_LV_HASH__".spec_bytes(),
        "__I18N_HASH__".spec_bytes(),
        "__CHART_HASH__".spec_bytes(),
        "__RESULTS_HASH__".spec_bytes(),
    ];
    let h = seq![
        fnv1a(a.style@),
        fnv1a(a.locale_en@),
        fnv1a(a.locale_lv@),
        fnv1a(a.i18n@),
        fnv1a(a.chart@),
        fnv1a(a.results_app@),
    ];
    lemma_fill_chain(lossy_utf8(a.results_index@), p, h);
}

/// `t` with each placeholder of `p` in turn replaced by the fingerprint of
/// the same rank in `h`.
pub open spec fn fill_all(t: Seq<u8>, p: Seq<Seq<u8>>, h: Seq<u64>) -> Seq<u8>
    decreases p.len(),
{
    if p.len() == 0 || h.len() == 0 {
        t
    } else {
        fill_all(replace_all(t, p[0], hex16(h[0])), p.drop_first(), h.drop_first())
    }
}

proof fn lemma_fill_all_absent(t: Seq<u8>, p: Seq<Seq<u8>>, h: Seq<u64>, q: Seq<u8>)
    requires
        p.len() == h.len(),
        forall|i: int| 0 <= i < p.len() ==> placeholder_shaped(#[trigger] p[i]),
        placeholder_shaped(q),
        !contains(t, q),
    ensures
        !contains(fill_all(t, p, h), q),
    decreases p.len(),
{
    if p.len() > 0 {
        assert(placeholder_shaped(p[0]));
        lemma_stays_filled(t, p[0], h[0], q);
        assert forall|i: int| 0 <= i < p.drop_first().len() implies placeholder_shaped(#[trigger] p.drop_first()[i]) by {
            assert(p.drop_first()[i] == p[i + 1]);
        }
        lemma_fill_all_absent(replace_all(t, p[0], hex16(h[0])), p.drop_first(), h.drop_first(), q);
    }
}

proof fn lemma_fill_all_filled(t: Seq<u8>, p: Seq<Seq<u8>>, h: Seq<u64>, i: int)
    requires
        p.len() == h.len(),
        forall|j: int| 0 <= j < p.len() ==> placeholder_shaped(#[trigger] p[j]),
        0 <= i < p.len(),
    ensures
        !contains(fill_all(t, p, h), p[i]),
    decreases p.len(),
{
    assert(placeholder_shaped(p[0]));
    assert forall|j: int| 0 <= j < p.drop_first().len() implies placeholder_shaped(#[trigger] p.drop_first()[j]) by {
        assert(p.drop_first()[j] == p[j + 1]);
    }
    let t1 = replace_all(t, p[0], hex16(h[0]));
    if i == 0 {
        lemma_filled(t, p[0], h[0]);
        lemma_fill_all_absent(t1, p.drop_first(), h.drop_first(), p[0]);
    } else {
        lemma_fill_all_filled(t1, p.drop_first(), h.drop_first(), i - 1);
        assert(p.drop_first()[i - 1] == p[i]);
    }
}

proof fn lemma_fill_chain(t: Seq<u8>, p: Seq<Seq<u8>>, h: Seq<u64>)
    requires
        p.len() == 6,
        h.len() == 6,
        forall|j: int| 0 <= j < 6 ==> placeholder_shaped(#[trigger] p[j]),
    ensures
        forall|i: int| 0 <= i < 6 ==> !contains(
            replace_all(replace_all(replace_all(replace_all(replace_all(replace_all(
                t, p[0], hex16(h[0])), p[1], hex16(h[1])), p[2], hex16(h[2])), p[3], hex16(h[3])),
                p[4], hex16(h[4])), p[5], hex16(h[5])),
            #[trigger] p[i]),
{
    reveal_with_fuel(fill_all, 7);
    assert forall|i: int| 0 <= i < 6 implies !contains(
            replace_all(replace_all(replace_all(replace_all(replace_all(replace_all(
                t, p[0], hex16(h[0])), p[1], hex16(h[1])), p[2], hex16(h[2])), p[3], hex16(h[3])),
                p[4], hex16(h[4])), p[5], hex16(h[5])),
            #[trigger] p[i]) by {
        lemma_fill_all_filled(t, p, h, i);
    }
}


proof fn lemma_contains_shift(a: Seq<u8>, x: Seq<u8>, q: Seq<u8>)
    requires
        contains(x, q),
    ensures
        contains(a + x, q),
{
    let k = choose|k: int| #[trigger] occurs_at(x, q, k);
    assert((a + x).subrange(k + a.len(), k + a.len() + q.len()) =~= x.subrange(k, k + q.len()));
    assert(occurs_at(a + x, q, k + a.len()));
}

/// Text without `p` is left as it is.
pub proof fn lemma_replace_absent(s: Seq<u8>, p: Seq<u8>, r: Seq<u8>)
    requires
        p.len() > 0,
        !contains(s, p),
    ensures
        replace_all(s, p, r) == s,
    decreases s.len(),
{
    if s.len() >= p.len() {
        assert(!occurs_at(s, p, 0));
        let s1 = s.subrange(1, s.len() as int);
        assert(!contains(s1, p)) by {
            if contains(s1, p) {
                let j = choose|j: int| #[trigger] occurs_at(s1, p, j);
                assert(s.subrange(j + 1, j + 1 + p.len()) =~= s1.subrange(j, j + p.len()));
                assert(occurs_at(s, p, j + 1));
            }
        }
        lemma_replace_absent(s1, p, r);
        assert(seq![s[0]] + s1 =~= s);
    }
}

/// Where `p` stands, its replacement `r` stands afterwards.
pub proof fn lemma_replace_introduces(s: Seq<u8>, p: Seq<u8>, r: Seq<u8>)
    requires
        p.len() > 0,
        contains(s, p),
    ensures
        contains(replace_all(s, p, r), r),
    decreases s.len(),
{
    let k = choose|k: int| #[trigger] occurs_at(s, p, k);
    let o = replace_all(s, p, r);
    if s.subrange(0, p.len() as int) == p {
        let rest = s.subrange(p.len() as int, s.len() as int);
        assert(o == r + replace_all(rest, p, r));
        assert(o.subrange(0, r.len() as int) =~= r);
        assert(occurs_at(o, r, 0));
    } else {
        assert(k != 0);
        let s1 = s.subrange(1, s.len() as int);
        assert(s1.subrange(k - 1, k - 1 + p.len()) =~= s.subrange(k, k + p.len()));
        assert(occurs_at(s1, p, k - 1));
        lemma_replace_introduces(s1, p, r);
        assert(o == seq![s[0]] + replace_all(s1, p, r));
        lemma_contains_shift(seq![s[0]], replace_all(s1, p, r), r);
    }
}

/// Where no copy of `p` starts before `m`, replacing `p` leaves the first `m` bytes.
proof fn lemma_replace_unchanged_prefix(t: Seq<u8>, p: Seq<u8>, r: Seq<u8>, m: int)
    requires
        p.len() > 0,
        0 <= m <= t.len(),
        forall|j: int| 0 <= j < m ==> !#[trigger] occurs_at(t, p, j),
    ensures
        m <= replace_all(t, p, r).len(),
        replace_all(t, p, r).subrange(0, m) == t.subrange(0, m),
    decreases t.len(),
{
    let o = replace_all(t, p, r);
    if t.len() < p.len() {
    } else if t.subrange(0, p.len() as int) == p {
        assert(occurs_at(t, p, 0));
        assert(m == 0);
    } else if m > 0 {
        let t1 = t.subrange(1, t.len() as int);
        assert forall|j: int| 0 <= j < m - 1 implies !#[trigger] occurs_at(t1, p, j) by {
            if occurs_at(t1, p, j) {
                assert(t.subrange(j + 1, j + 1 + p.len()) =~= t1.subrange(j, j + p.len()));
                assert(occurs_at(t, p, j + 1));
            }
        }
        lemma_replace_unchanged_prefix(t1, p, r, m - 1);
        assert(o == seq![t[0]] + replace_all(t1, p, r));
        assert(o.subrange(0, m) =~= seq![t[0]] + replace_all(t1, p, r).subrange(0, m - 1));
        assert(t.subrange(0, m) =~= seq![t[0]] + t1.subrange(0, m - 1));
    }
}

/// Replacing a `p` that cannot overlap `q` keeps every copy of `q`.
pub proof fn lemma_replace_keeps_present(s: Seq<u8>, p: Seq<u8>, r: Seq<u8>, q: Seq<u8>)
    requires
        separate(p, q),
        contains(s, q),
    ensures
        contains(replace_all(s, p, r), q),
    decreases s.len(),
{
    let k = choose|k: int| #[trigger] occurs_at(s, q, k);
    let o = replace_all(s, p, r);
    if q.len() == 0 {
        assert(o.subrange(0, 0) =~= q);
        assert(occurs_at(o, q, 0));
    } else if s.len() < p.len() {
    } else if s.subrange(0, p.len() as int) == p {
        let rest = s.subrange(p.len() as int, s.len() as int);
        assert(o == r + replace_all(rest, p, r));
        if k >= p.len() {
            assert(rest.subrange(k - p.len(), k - p.len() + q.len()) =~= s.subrange(k, k + q.len()));
            assert(occurs_at(rest, q, k - p.len()));
            lemma_replace_keeps_present(rest, p, r, q);
            lemma_contains_shift(r, replace_all(rest, p, r), q);
        } else if k == 0 {
            assert(q[0] == s.subrange(k, k + q.len())[0]);
            assert(s.subrange(k, k + q.len())[0] == s[0]);
            assert(p[0] == s.subrange(0, p.len() as int)[0]);
            assert(q[0] == p[0]);
            assert(is_byte_of(p[0], q));
        } else if p.len() <= k + q.len() {
            let j = p.len() - 1 - k;
            assert(q[j] == s.subrange(k, k + q.len())[j]);
            assert(s.subrange(k, k + q.len())[j] == s[p.len() - 1]);
            assert(p[p.len() - 1] == s.subrange(0, p.len() as int)[p.len() - 1]);
            assert(q[j] == p[p.len() - 1]);
            assert(is_byte_of(p[p.len() - 1], q));
        } else {
            assert(p.subrange(k, k + q.len()) =~= s.subrange(k, k + q.len()));
            assert(occurs_at(p, q, k));
        }
    } else {
        let s1 = s.subrange(1, s.len() as int);
        assert(o == seq![s[0]] + replace_all(s1, p, r));
        if k >= 1 {
            assert(s1.subrange(k - 1, k - 1 + q.len()) =~= s.subrange(k, k + q.len()));
            assert(occurs_at(s1, q, k - 1));
            lemma_replace_keeps_present(s1, p, r, q);
            lemma_contains_shift(seq![s[0]], replace_all(s1, p, r), q);
        } else {
            let m = q.len() - 1;
            assert forall|j: int| 0 <= j < m implies !#[trigger] occurs_at(s1, p, j) by {
                if occurs_at(s1, p, j) {
                    assert(s1.subrange(j, j + p.len())[0] == s1[j]);
                    assert(s1[j] == s[j + 1]);
                    assert(p[0] == s1.subrange(j, j + p.len())[0]);
                    assert(q[j + 1] == s.subrange(0, q.len() as int)[j + 1]);
                    assert(s.subrange(0, q.len() as int)[j + 1] == s[j + 1]);
                    assert(q[j + 1] == p[0]);
                    assert(is_byte_of(p[0], q));
                }
            }
            lemma_replace_unchanged_prefix(s1, p, r, m);
            assert(o.subrange(0, q.len() as int) =~= seq![s[0]] + replace_all(s1, p, r).subrange(0, m));
            assert(s.subrange(0, q.len() as int) =~= seq![s[0]] + s1.subrange(0, m));
            assert(occurs_at(o, q, 0));
        }
    }
}


proof fn lemma_fill_all_present(t: Seq<u8>, p: Seq<Seq<u8>>, h: Seq<u64>, hq: u64)
    requires
        p.len() == h.len(),
        forall|j: int| 0 <= j < p.len() ==> placeholder_shaped(#[trigger] p[j]),
        contains(t, hex16(hq)),
    ensures
        contains(fill_all(t, p, h), hex16(hq)),
    decreases p.len(),
{
    if p.len() > 0 {
        assert(placeholder_shaped(p[0]));
        lemma_placeholder_separate(p[0], hq);
        lemma_replace_keeps_present(t, p[0], hex16(h[0]), hex16(hq));
        assert forall|j: int| 0 <= j < p.drop_first().len() implies placeholder_shaped(#[trigger] p.drop_first()[j]) by {
            assert(p.drop_first()[j] == p[j + 1]);
        }
        lemma_fill_all_present(replace_all(t, p[0], hex16(h[0])), p.drop_first(), h.drop_first(), hq);
    }
}

proof fn lemma_fill_all_hash(t: Seq<u8>, p: Seq<Seq<u8>>, h: Seq<u64>, i: int)
    requires
        p.len() == h.len(),
        forall|j: int| 0 <= j < p.len() ==> placeholder_shaped(#[trigger] p[j]),
        0 <= i < p.len(),
        contains(t, p[i]),
        forall|j: int| 0 <= j < i ==> !contains(t, #[trigger] p[j]),
    ensures
        contains(fill_all(t, p, h), hex16(h[i])),
    decreases p.len(),
{
    assert(placeholder_shaped(p[0]));
    assert forall|j: int| 0 <= j < p.drop_first().len() implies placeholder_shaped(#[trigger] p.drop_first()[j]) by {
        assert(p.drop_first()[j] == p[j + 1]);
    }
    let t1 = replace_all(t, p[0], hex16(h[0]));
    if i == 0 {
        lemma_replace_introduces(t, p[0], hex16(h[0]));
        lemma_fill_all_present(t1, p.drop_first(), h.drop_first(), h[0]);
    } else {
        lemma_replace_absent(t, p[0], hex16(h[0]));
        assert forall|j: int| 0 <= j < i - 1 implies !contains(t1, #[trigger] p.drop_first()[j]) by {
            assert(p.drop_first()[j] == p[j + 1]);
        }
        assert(p.drop_first()[i - 1] == p[i]);
        assert(h.drop_first()[i - 1] == h[i]);
        lemma_fill_all_hash(t1, p.drop_first(), h.drop_first(), i - 1);
    }
}

proof fn lemma_fill_chain_hashes(t: Seq<u8>, p: Seq<Seq<u8>>, h: Seq<u64>, i: int)
    requires
        p.len() == 6,
        h.len() == 6,
        forall|j: int| 0 <= j < 6 ==> placeholder_shaped(#[trigger] p[j]),
        0 <= i < 6,
        contains(t, p[i]),
        forall|j: int| 0 <= j < i ==> !contains(t, #[trigger] p[j]),
    ensures
        contains(
            replace_all(replace_all(replace_all(replace_all(replace_all(replace_all(
                t, p[0], hex16(h[0])), p[1], hex16(h[1])), p[2], hex16(h[2])), p[3], hex16(h[3])),
                p[4], hex16(h[4])), p[5], hex16(h[5])),
            hex16(h[i])),
{
    reveal_with_fuel(fill_all, 7);
    lemma_fill_all_hash(t, p, h, i);
}

/// Each placeholder of the speed test page gives way to the fingerprint of
/// its own asset: where the template (as read) holds it, the page holds that
/// asset's fingerprint. A placeholder that an earlier one may have been
/// written over is left aside: for each, the template holds none of those
/// filled before it (the stylesheet's is filled first).
pub proof fn lemma_rendered_index_hashes(a: &Assets)
    ensures
        contains(lossy_utf8(a.index@), "__STYLE_HASH__".spec_bytes())
            ==> contains(rendered_index_spec(a), hash_of(a.style@)),
        contains(lossy_utf8(a.index@), "__LOCALE_EN_HASH__".spec_bytes()) && !contains(lossy_utf8(a.index@), "__STYLE_HASH__".spec_bytes())
            ==> contains(rendered_index_spec(a), hash_of(a.locale_en@)),
        contains(lossy_utf8(a.index@), "__LOCALE_LV_HASH__".spec_bytes()) && !contains(lossy_utf8(a.index@), "__STYLE_HASH__".spec_bytes()) && !contains(lossy_utf8(a.index@), "__LOCALE_EN_HASH__".spec_bytes())
            ==> contains(rendered_index_spec(a), hash_of(a.locale_lv@)),
        contains(lossy_utf8(a.index@), "__I18N_HASH__".spec_bytes()) && !contains(lossy_utf8(a.index@), "__STYLE_HASH__".spec_bytes()) && !contains(lossy_utf8(a.index@), "__LOCALE_EN_HASH__".spec_bytes()) && !contains(lossy_utf8(a.index@), "__LOCALE_LV_HASH__".spec_bytes())
            ==> contains(rendered_index_spec(a), hash_of(a.i18n@)),
        contains(lossy_utf8(a.index@), "__CHART_HASH__".spec_bytes()) && !contains(lossy_utf8(a.index@), "__STYLE_HASH__".spec_bytes()) && !contains(lossy_utf8(a.index@), "__LOCALE_EN_HASH__".spec_bytes()) && !contains(lossy_utf8(a.index@), "__LOCALE_LV_HASH__".spec_bytes()) && !contains(lossy_utf8(a.index@), "__I18N_HASH__".spec_bytes())
            ==> contains(rendered_index_spec(a), hash_of(a.chart@)),
        contains(lossy_utf8(a.index@), "__APP_HASH__".spec_bytes()) && !contains(lossy_utf8(a.index@), "__STYLE_HASH__".spec_bytes()) && !contains(lossy_utf8(a.index@), "__LOCALE_EN_HASH__".spec_bytes()) && !contains(lossy_utf8(a.index@), "__LOCALE_LV_HASH__".spec_bytes()) && !contains(lossy_utf8(a.index@), "__I18N_HASH__".spec_bytes()) && !contains(lossy_utf8(a.index@), "__CHART_HASH__".spec_bytes())
            ==> contains(rendered_index_spec(a), hash_of(a.app@)),
{
    lemma_placeholders_shaped();
    let p = seq![
        "__STYLE_HASH__".spec_bytes(),
        "__LOCALE_EN_HASH__".spec_bytes(),
        "__LOCALE_LV_HASH__".spec_bytes(),
        "__I18N_HASH__".spec_bytes(),
        "__CHART_HASH__".spec_bytes(),
        "__APP_HASH__".spec_bytes(),
    ];
    let h = seq![
        fnv1a(a.style@),
        fnv1a(a.locale_en@),
        fnv1a(a.locale_lv@),
        fnv1a(a.i18n@),
        fnv1a(a.chart@),
        fnv1a(a.app@),
    ];
    let t = lossy_utf8(a.index@);
    assert forall|i: int| 0 <= i < 6 && contains(t, p[i]) && (forall|j: int| 0 <= j < i ==> !contains(t, #[trigger] p[j]))
        implies contains(rendered_index_spec(a), hex16(#[trigger] h[i])) by {
        lemma_fill_chain_hashes(t, p, h, i);
    }
    assert(p[0] == "__STYLE_HASH__".spec_bytes() && h[0] == fnv1a(a.style@));
    assert(p[1] == "__LOCALE_EN_HASH__".spec_bytes() && h[1] == fnv1a(a.locale_en@));
    assert(p[2] == "__LOCALE_LV_HASH__".spec_bytes() && h[2] == fnv1a(a.locale_lv@));
    assert(p[3] == "__I18N_HASH__".spec_bytes() && h[3] == fnv1a(a.i18n@));
    assert(p[4] == "__CHART_HASH__".spec_bytes() && h[4] == fnv1a(a.chart@));
    assert(p[5] == "__APP_HASH__".spec_bytes() && h[5] == fnv1a(a.app@));
}

/// Each placeholder of the results page gives way to the fingerprint of its
/// own asset, as for the speed test page: the stylesheet's placeholder to the
/// stylesheet's fingerprint, the results script's to the results script's.
pub proof fn lemma_rendered_results_index_hashes(a: &Assets)
    ensures
        contains(lossy_utf8(a.results_index@), "__STYLE_HASH__".spec_bytes())
            ==> contains(rendered_results_index_spec(a), hash_of(a.style@)),
        contains(lossy_utf8(a.results_index@), "__LOCALE_EN_HASH__".spec_bytes()) && !contains(lossy_utf8(a.results_index@), "__STYLE_HASH__".spec_bytes())
            ==> contains(rendered_results_index_spec(a), hash_of(a.locale_en@)),
        contains(lossy_utf8(a.results_index@), "__LOCALE_LV_HASH__".spec_bytes()) && !contains(lossy_utf8(a.results_index@), "__STYLE_HASH__".spec_bytes()) && !contains(lossy_utf8(a.results_index@), "__LOCALE_EN_HASH__".spec_bytes())
            ==> contains(rendered_results_index_spec(a), hash_of(a.locale_lv@)),
        contains(lossy_utf8(a.results_index@), "__I18N_HASH__".spec_bytes()) && !contains(lossy_utf8(a.results_index@), "__STYLE_HASH__".spec_bytes()) && !contains(lossy_utf8(a.results_index@), "__LOCALE_EN_HASH__".spec_bytes()) && !contains(lossy_utf8(a.results_index@), "__LOCALE_LV_HASH__".spec_bytes())
            ==> contains(rendered_results_index_spec(a), hash_of(a.i18n@)),
        contains(lossy_utf8(a.results_index@), "__CHART_HASH__".spec_bytes()) && !contains(lossy_utf8(a.results_index@), "__STYLE_HASH__".spec_bytes()) && !contains(lossy_utf8(a.results_index@), "__LOCALE_EN_HASH__".spec_bytes()) && !contains(lossy_utf8(a.results_index@), "__LOCALE_LV_HASH__".spec_bytes()) && !contains(lossy_utf8(a.results_index@), "__I18N_HASH__".spec_bytes())
            ==> contains(rendered_results_index_spec(a), hash_of(a.chart@)),
        contains(lossy_utf8(a.results_index@), "__RESULTS_HASH__".spec_bytes()) && !contains(lossy_utf8(a.results_index@), "__STYLE_HASH__".spec_bytes()) && !contains(lossy_utf8(a.results_index@), "__LOCALE_EN_HASH__".spec_bytes()) && !contains(lossy_utf8(a.results_index@), "__LOCALE_LV_HASH__".spec_bytes()) && !contains(lossy_utf8(a.results_index@), "__I18N_HASH__".spec_bytes()) && !contains(lossy_utf8(a.results_index@), "__CHART_HASH__".spec_bytes())
            ==> contains(rendered_results_index_spec(a), hash_of(a.results_app@)),
{
    lemma_placeholders_shaped();
    let p = seq![
        "__STYLE_HASH__".spec_bytes(),
        "__LOCALE_EN_HASH__".spec_bytes(),
        "__LOCALE_LV_HASH__".spec_bytes(),
        "__I18N_HASH__".spec_bytes(),
        "__CHART_HASH__".spec_bytes(),
        "__RESULTS_HASH__".spec_bytes(),
    ];
    let h = seq![
        fnv1a(a.style@),
        fnv1a(a.locale_en@),
        fnv1a(a.locale_lv@),
        fnv1a(a.i18n@),
        fnv1a(a.chart@),
        fnv1a(a.results_app@),
    ];
    let t = lossy_utf8(a.results_index@);
    assert forall|i: int| 0 <= i < 6 && contains(t, p[i]) && (forall|j: int| 0 <= j < i ==> !contains(t, #[trigger] p[j]))
        implies contains(rendered_results_index_spec(a), hex16(#[trigger] h[i])) by {
        lemma_fill_chain_hashes(t, p, h, i);
    }
    assert(p[0] == "__STYLE_HASH__".spec_bytes() && h[0] == fnv1a(a.style@));
    assert(p[1] == "__LOCALE_EN_HASH__".spec_bytes() && h[1] == fnv1a(a.locale_en@));
    assert(p[2] == "__LOCALE_LV_HASH__".spec_bytes() && h[2] == fnv1a(a.locale_lv@));
    assert(p[3] == "__I18N_HASH__".spec_bytes() && h[3] == fnv1a(a.i18n@));
    assert(p[4] == "__CHART_HASH__".spec_bytes() && h[4] == fnv1a(a.chart@));
    assert(p[5] == "__RESULTS_HASH__".spec_bytes() && h[5] == fnv1a(a.results_app@));
}

} // verus!

//! Character-sequence toolkit: trimming, searching, splitting and integer
//! parsing over `Seq<char>`, with executable counterparts on `Vec<char>`.
//! The statement parsers and the predicate evaluator state their contracts
//! in terms of these spec functions.

use vstd::prelude::*;
use vstd::string::*;

verus! {

/// A whitespace character, as the tokenizer understands it.
pub open spec fn es_blanco(c: char) -> bool {
    c == ' ' || c == '\t' || c == '\n' || c == '\r'
}

/// `s` without its leading characters that satisfy `p`.
pub open spec fn recorta_ini(s: Seq<char>, p: spec_fn(char) -> bool) -> Seq<char>
    decreases s.len(),
{
    if s.len() > 0 && p(s[0]) {
        recorta_ini(s.drop_first(), p)
    } else {
        s
    }
}

/// `s` without its trailing characters that satisfy `p`.
pub open spec fn recorta_fin(s: Seq<char>, p: spec_fn(char) -> bool) -> Seq<char>
    decreases s.len(),
{
    if s.len() > 0 && p(s.last()) {
        recorta_fin(s.drop_last(), p)
    } else {
        s
    }
}

/// `s` with surrounding whitespace removed, as `str::trim` does.
pub open spec fn recortar(s: Seq<char>) -> Seq<char> {
    recorta_fin(recorta_ini(s, |c: char| es_blanco(c)), |c: char| es_blanco(c))
}

pub proof fn lemma_recorta_ini_indice(s: Seq<char>, p: spec_fn(char) -> bool, i: int)
    requires
        0 <= i <= s.len(),
        forall|j: int| 0 <= j < i ==> p(s[j]),
        i < s.len() ==> !p(s[i]),
    ensures
        recorta_ini(s, p) =~= s.subrange(i, s.len() as int),
    decreases i,
{
    if i == 0 {
        if s.len() > 0 && p(s[0]) {
            assert(!p(s[0]));
        }
        assert(recorta_ini(s, p) =~= s.subrange(0, s.len() as int));
    } else {
        assert(p(s[0]));
        let t = s.drop_first();
        assert(forall|j: int| 0 <= j < i - 1 ==> p(t[j]));
        lemma_recorta_ini_indice(t, p, i - 1);
        assert(t.subrange(i - 1, t.len() as int) =~= s.subrange(i, s.len() as int));
    }
}

pub proof fn lemma_recorta_fin_indice(s: Seq<char>, p: spec_fn(char) -> bool, i: int)
    requires
        0 <= i <= s.len(),
        forall|j: int| i <= j < s.len() ==> p(s[j]),
        i > 0 ==> !p(s[i - 1]),
    ensures
        recorta_fin(s, p) =~= s.subrange(0, i),
    decreases s.len() - i,
{
    if i == s.len() {
        if s.len() > 0 && p(s.last()) {
            assert(!p(s[s.len() - 1]));
        }
        assert(recorta_fin(s, p) =~= s.subrange(0, s.len() as int));
    } else {
        assert(p(s.last()));
        let t = s.drop_last();
        assert(forall|j: int| i <= j < t.len() ==> t[j] == s[j] && p(s[j]));
        lemma_recorta_fin_indice(t, p, i);
        assert(t.subrange(0, i) =~= s.subrange(0, i));
    }
}

/// Relies on `String::push`: appends one character at the end of the string.
#[verifier::external_body]
fn empujar_char(s: &mut String, c: char)
    ensures
        final(s)@ == old(s)@.push(c),
{
    s.push(c);
}

/// The characters of `s`, one by one.
pub fn a_chars(s: &str) -> (r: Vec<char>)
    ensures
        r@ == s@,
{
    let n = s.unicode_len();
    let mut r: Vec<char> = Vec::new();
    let mut i: usize = 0;
    while i < n
        invariant
            n == s@.len(),
            i <= n,
            r@ == s@.subrange(0, i as int),
        decreases n - i,
    {
        let c = s.get_char(i);
        r.push(c);
        proof {
            assert(s@.subrange(0, i as int).push(s@[i as int]) =~= s@.subrange(0, i as int + 1));
        }
        i += 1;
    }
    proof {
        assert(s@.subrange(0, n as int) =~= s@);
    }
    r
}

/// The characters of `v`, joined back into a `String`.
pub fn a_cadena(v: &Vec<char>) -> (r: String)
    ensures
        r@ == v@,
{
    let mut r = String::new();
    let mut i: usize = 0;
    while i < v.len()
        invariant
            i <= v@.len(),
            r@ == v@.subrange(0, i as int),
        decreases v@.len() - i,
    {
        empujar_char(&mut r, v[i]);
        proof {
            assert(v@.subrange(0, i as int).push(v@[i as int]) =~= v@.subrange(0, i as int + 1));
        }
        i += 1;
    }
    proof {
        assert(v@.subrange(0, v@.len() as int) =~= v@);
    }
    r
}

/// The characters of `v` from `desde` (inclusive) to `hasta` (exclusive).
pub fn subvec(v: &Vec<char>, desde: usize, hasta: usize) -> (r: Vec<char>)
    requires
        desde <= hasta <= v@.len(),
    ensures
        r@ == v@.subrange(desde as int, hasta as int),
{
    let mut r: Vec<char> = Vec::new();
    let mut i: usize = desde;
    while i < hasta
        invariant
            desde <= i <= hasta <= v@.len(),
            r@ == v@.subrange(desde as int, i as int),
        decreases hasta - i,
    {
        r.push(v[i]);
        proof {
            assert(v@.subrange(desde as int, i as int).push(v@[i as int]) =~= v@.subrange(
                desde as int,
                i as int + 1,
            ));
        }
        i += 1;
    }
    r
}

/// Whether two character vectors hold the same characters.
pub fn igual_chars(a: &Vec<char>, b: &Vec<char>) -> (r: bool)
    ensures
        r == (a@ == b@),
{
    if a.len() != b.len() {
        return false;
    }
    let mut i: usize = 0;
    while i < a.len()
        invariant
            a@.len() == b@.len(),
            i <= a@.len(),
            forall|j: int| 0 <= j < i ==> a@[j] == b@[j],
        decreases a@.len() - i,
    {
        if a[i] != b[i] {
            return false;
        }
        i += 1;
    }
    proof {
        assert(a@ =~= b@);
    }
    true
}

/// Whether the string `s` holds exactly the characters of `v`.
pub fn igual_str_chars(s: &str, v: &Vec<char>) -> (r: bool)
    ensures
        r == (s@ == v@),
{
    let n = s.unicode_len();
    if n != v.len() {
        return false;
    }
    let mut i: usize = 0;
    while i < n
        invariant
            n == s@.len(),
            s@.len() == v@.len(),
            i <= n,
            forall|j: int| 0 <= j < i ==> s@[j] == v@[j],
        decreases n - i,
    {
        if s.get_char(i) != v[i] {
            return false;
        }
        i += 1;
    }
    proof {
        assert(s@ =~= v@);
    }
    true
}

/// `v` with surrounding whitespace removed.
pub fn recortar_v(v: &Vec<char>) -> (r: Vec<char>)
    ensures
        r@ == recortar(v@),
{
    let mut ini: usize = 0;
    while ini < v.len() && es_blanco_exec(v[ini])
        invariant
            ini <= v@.len(),
            forall|j: int| 0 <= j < ini ==> es_blanco(v@[j]),
        decreases v@.len() - ini,
    {
        ini += 1;
    }
    proof {
        lemma_recorta_ini_indice(v@, |c: char| es_blanco(c), ini as int);
    }
    let ghost t = recorta_ini(v@, |c: char| es_blanco(c));
    let mut fin: usize = v.len();
    while fin > ini && es_blanco_exec(v[fin - 1])
        invariant
            ini <= fin <= v@.len(),
            forall|j: int| fin <= j < v@.len() ==> es_blanco(v@[j]),
        decreases fin,
    {
        fin -= 1;
    }
    proof {
        assert(t =~= v@.subrange(ini as int, v@.len() as int));
        assert(forall|j: int| fin - ini <= j < t.len() ==> es_blanco(t[j]));
        if fin > ini {
            assert(t[fin - ini - 1] == v@[fin - 1]);
        }
        lemma_recorta_fin_indice(t, |c: char| es_blanco(c), fin - ini);
        assert(t.subrange(0, fin - ini) =~= v@.subrange(ini as int, fin as int));
    }
    subvec(v, ini, fin)
}

/// Whether `c` is whitespace; the executable twin of `es_blanco`.
pub fn es_blanco_exec(c: char) -> (r: bool)
    ensures
        r == es_blanco(c),
{
    c == ' ' || c == '\t' || c == '\n' || c == '\r'
}

} // verus!

verus! {

/// `pat` occurs in `s` starting at position `i`.
pub open spec fn coincide_en(s: Seq<char>, pat: Seq<char>, i: int) -> bool {
    0 <= i && i + pat.len() <= s.len() && s.subrange(i, i + pat.len()) == pat
}

/// The position of the first occurrence of `pat` in `s`, as `str::find` gives it.
pub open spec fn encuentra(s: Seq<char>, pat: Seq<char>) -> Option<int>
    decreases s.len(),
{
    if coincide_en(s, pat, 0) {
        Some(0int)
    } else if s.len() == 0 {
        None
    } else {
        match encuentra(s.drop_first(), pat) {
            Some(j) => Some(j + 1),
            None => None,
        }
    }
}

/// `pat` occurs somewhere in `s`.
pub open spec fn contiene(s: Seq<char>, pat: Seq<char>) -> bool {
    encuentra(s, pat) is Some
}

/// `s` starts with `pat`.
pub open spec fn empieza_con(s: Seq<char>, pat: Seq<char>) -> bool {
    coincide_en(s, pat, 0)
}

proof fn lemma_coincide_corrimiento(s: Seq<char>, pat: Seq<char>, j: int)
    requires
        s.len() > 0,
    ensures
        coincide_en(s.drop_first(), pat, j) <==> (0 <= j && coincide_en(s, pat, j + 1)),
{
    if 0 <= j && j + pat.len() <= s.len() - 1 {
        assert(s.drop_first().subrange(j, j + pat.len()) =~= s.subrange(j + 1, j + 1 + pat.len()));
    }
}

/// What `encuentra` returns: the least match position, or no match at all.
pub proof fn lemma_encuentra(s: Seq<char>, pat: Seq<char>)
    ensures
        match encuentra(s, pat) {
            Some(i) => coincide_en(s, pat, i) && forall|j: int| 0 <= j < i ==> !coincide_en(s, pat, j),
            None => forall|j: int| !coincide_en(s, pat, j),
        },
    decreases s.len(),
{
    if coincide_en(s, pat, 0) {
    } else if s.len() == 0 {
        assert forall|j: int| !coincide_en(s, pat, j) by {
            if coincide_en(s, pat, j) {
                assert(j == 0);
            }
        }
    } else {
        lemma_encuentra(s.drop_first(), pat);
        match encuentra(s.drop_first(), pat) {
            Some(k) => {
                lemma_coincide_corrimiento(s, pat, k);
                assert forall|j: int| 0 <= j < k + 1 implies !coincide_en(s, pat, j) by {
                    if j > 0 {
                        lemma_coincide_corrimiento(s, pat, j - 1);
                    }
                }
            },
            None => {
                assert forall|j: int| !coincide_en(s, pat, j) by {
                    if coincide_en(s, pat, j) && j > 0 {
                        lemma_coincide_corrimiento(s, pat, j - 1);
                    }
                }
            },
        }
    }
}

/// Whether `pat` occurs at position `i` of `v`.
pub fn coincide_exec(v: &Vec<char>, pat: &Vec<char>, i: usize) -> (r: bool)
    requires
        i + pat@.len() <= v@.len(),
    ensures
        r == coincide_en(v@, pat@, i as int),
{
    let n = v.len();
    let mut k: usize = 0;
    while k < pat.len()
        invariant
            n == v@.len(),
            i + pat@.len() <= v@.len(),
            k <= pat@.len(),
            forall|m: int| 0 <= m < k ==> v@[i + m] == pat@[m],
        decreases pat@.len() - k,
    {
        if v[i + k] != pat[k] {
            proof {
                assert(v@.subrange(i as int, i as int + pat@.len() as int)[k as int] != pat@[k as int]);
            }
            return false;
        }
        k += 1;
    }
    proof {
        assert(v@.subrange(i as int, i as int + pat@.len() as int) =~= pat@);
    }
    true
}

/// The first occurrence of `pat` in `v`, if there is one.
pub fn encuentra_v(v: &Vec<char>, pat: &Vec<char>) -> (r: Option<usize>)
    ensures
        match r {
            Some(i) => encuentra(v@, pat@) == Some(i as int),
            None => encuentra(v@, pat@) is None,
        },
{
    proof {
        lemma_encuentra(v@, pat@);
    }
    if pat.len() > v.len() {
        proof {
            if encuentra(v@, pat@) is Some {
                let i = encuentra(v@, pat@)->Some_0;
                assert(coincide_en(v@, pat@, i));
            }
        }
        return None;
    }
    if pat.len() == 0 {
        proof {
            assert(v@.subrange(0, 0) =~= pat@);
            assert(coincide_en(v@, pat@, 0));
        }
        return Some(0);
    }
    let tope = v.len() - pat.len();
    let mut i: usize = 0;
    while i <= tope
        invariant
            1 <= pat@.len() <= v@.len() <= usize::MAX,
            tope == v@.len() - pat@.len(),
            i <= tope + 1,
            forall|j: int| 0 <= j < i ==> !coincide_en(v@, pat@, j),
        decreases tope + 1 - i,
    {
        if coincide_exec(v, pat, i) {
            proof {
                lemma_encuentra(v@, pat@);
                match encuentra(v@, pat@) {
                    Some(k) => {
                        if k < i as int {
                            assert(!coincide_en(v@, pat@, k));
                        }
                        if k > i as int {
                            assert(!coincide_en(v@, pat@, i as int));
                        }
                    },
                    None => {
                        assert(!coincide_en(v@, pat@, i as int));
                    },
                }
            }
            return Some(i);
        }
        i += 1;
    }
    proof {
        lemma_encuentra(v@, pat@);
        assert forall|j: int| !coincide_en(v@, pat@, j) by {
            if coincide_en(v@, pat@, j) {
                assert(0 <= j <= v@.len() - pat@.len());
            }
        }
        if encuentra(v@, pat@) is Some {
            let k = encuentra(v@, pat@)->Some_0;
            assert(!coincide_en(v@, pat@, k));
        }
    }
    None
}

/// Whether `v` starts with `pat`.
pub fn empieza_con_v(v: &Vec<char>, pat: &Vec<char>) -> (r: bool)
    ensures
        r == empieza_con(v@, pat@),
{
    if pat.len() > v.len() {
        return false;
    }
    coincide_exec(v, pat, 0)
}

/// The pieces of `s` between occurrences of `sep`, as `str::split` gives them:
/// always at least one piece, and empty pieces are kept.
pub open spec fn dividir(s: Seq<char>, sep: char) -> Seq<Seq<char>>
    decreases s.len(),
{
    if s.len() == 0 {
        seq![Seq::<char>::empty()]
    } else if s[0] == sep {
        seq![Seq::<char>::empty()] + dividir(s.drop_first(), sep)
    } else {
        let r = dividir(s.drop_first(), sep);
        seq![seq![s[0]] + r[0]] + r.drop_first()
    }
}

pub proof fn lemma_dividir_largo(s: Seq<char>, sep: char)
    ensures
        dividir(s, sep).len() >= 1,
    decreases s.len(),
{
    if s.len() > 0 {
        lemma_dividir_largo(s.drop_first(), sep);
    }
}

/// How a partly-built piece combines with the split of the remaining text.
pub open spec fn pega_dividir(actual: Seq<char>, resto: Seq<char>, sep: char) -> Seq<Seq<char>> {
    let d = dividir(resto, sep);
    seq![actual + d[0]] + d.drop_first()
}

/// The pieces of `v` between occurrences of `sep`.
pub fn dividir_v(v: &Vec<char>, sep: char) -> (r: Vec<Vec<char>>)
    ensures
        r.deep_view() == dividir(v@, sep),
{
    let mut res: Vec<Vec<char>> = Vec::new();
    let mut actual: Vec<char> = Vec::new();
    let mut i: usize = 0;
    proof {
        lemma_dividir_largo(v@, sep);
        let d = dividir(v@, sep);
        assert(Seq::<char>::empty() + d[0] =~= d[0]);
        assert(pega_dividir(Seq::<char>::empty(), v@, sep) =~~= d);
        assert(v@.subrange(0, v@.len() as int) =~= v@);
        assert(res.deep_view() + pega_dividir(actual@, v@, sep) =~~= d);
    }
    while i < v.len()
        invariant
            i <= v@.len(),
            dividir(v@, sep) == res.deep_view() + pega_dividir(
                actual@,
                v@.subrange(i as int, v@.len() as int),
                sep,
            ),
        decreases v@.len() - i,
    {
        let ghost resto = v@.subrange(i as int, v@.len() as int);
        let ghost res0 = res.deep_view();
        let ghost act0 = actual@;
        proof {
            assert(resto.len() > 0 && resto[0] == v@[i as int]);
            assert(resto.drop_first() =~= v@.subrange(i as int + 1, v@.len() as int));
            lemma_dividir_largo(resto.drop_first(), sep);
        }
        let ghost d = dividir(resto.drop_first(), sep);
        if v[i] == sep {
            let terminada = actual;
            actual = Vec::new();
            res.push(terminada);
            proof {
                assert(dividir(resto, sep) =~~= seq![Seq::<char>::empty()] + d);
                assert(act0 + dividir(resto, sep)[0] =~= act0);
                assert(dividir(resto, sep).drop_first() =~~= d);
                assert(pega_dividir(act0, resto, sep) =~~= seq![act0] + d);
                assert(res.deep_view() =~~= res0.push(act0));
                assert(Seq::<char>::empty() + d[0] =~= d[0]);
                assert(pega_dividir(actual@, resto.drop_first(), sep) =~~= d);
                assert(res0 + (seq![act0] + d) =~~= res0.push(act0) + d);
            }
        } else {
            let c = v[i];
            actual.push(c);
            proof {
                assert(dividir(resto, sep) =~~= seq![seq![v@[i as int]] + d[0]] + d.drop_first());
                assert(act0 + dividir(resto, sep)[0] =~= actual@ + d[0]);
                assert(pega_dividir(act0, resto, sep) =~~= seq![actual@ + d[0]] + d.drop_first());
                assert(pega_dividir(actual@, resto.drop_first(), sep) =~~= seq![actual@ + d[0]]
                    + d.drop_first());
            }
        }
        i += 1;
    }
    let ghost res0 = res.deep_view();
    let ghost act0 = actual@;
    res.push(actual);
    proof {
        assert(v@.subrange(v@.len() as int, v@.len() as int) =~= Seq::<char>::empty());
        assert(pega_dividir(act0, Seq::<char>::empty(), sep) =~~= seq![act0]);
        assert(res.deep_view() =~~= res0.push(act0));
        assert(res0 + seq![act0] =~~= res0.push(act0));
        assert(res.deep_view() =~~= dividir(v@, sep));
    }
    res
}

} // verus!

verus! {

/// The maximal runs of non-whitespace characters of `s`, in order, as
/// `str::split_whitespace` gives them.
pub open spec fn piezas(s: Seq<char>) -> Seq<Seq<char>>
    decreases s.len(),
{
    if s.len() == 0 {
        Seq::empty()
    } else if es_blanco(s[0]) {
        piezas(s.drop_first())
    } else if s.len() >= 2 && !es_blanco(s[1]) {
        let r = piezas(s.drop_first());
        seq![seq![s[0]] + r[0]] + r.drop_first()
    } else {
        seq![seq![s[0]]] + piezas(s.drop_first())
    }
}

pub proof fn lemma_piezas_no_vacia(s: Seq<char>)
    requires
        s.len() > 0,
        !es_blanco(s[0]),
    ensures
        piezas(s).len() >= 1,
    decreases s.len(),
{
    if s.len() >= 2 && !es_blanco(s[1]) {
        lemma_piezas_no_vacia(s.drop_first());
    }
}

/// How a partly-built token combines with the tokens of the remaining text.
pub open spec fn pega_piezas(actual: Seq<char>, resto: Seq<char>) -> Seq<Seq<char>> {
    if actual.len() == 0 {
        piezas(resto)
    } else if resto.len() > 0 && !es_blanco(resto[0]) {
        let p = piezas(resto);
        seq![actual + p[0]] + p.drop_first()
    } else {
        seq![actual] + piezas(resto)
    }
}

proof fn lemma_pega_piezas_paso(act: Seq<char>, resto: Seq<char>)
    requires
        resto.len() > 0,
        !es_blanco(resto[0]),
    ensures
        pega_piezas(act, resto) =~~= pega_piezas(act.push(resto[0]), resto.drop_first()),
{
    let c = resto[0];
    let resto2 = resto.drop_first();
    if resto2.len() > 0 && !es_blanco(resto2[0]) {
        lemma_piezas_no_vacia(resto2);
        let r = piezas(resto2);
        assert(resto.len() >= 2 && !es_blanco(resto[1]));
        assert(piezas(resto) =~~= seq![seq![c] + r[0]] + r.drop_first());
        assert(act + (seq![c] + r[0]) =~= act.push(c) + r[0]);
        if act.len() == 0 {
            assert(pega_piezas(act, resto) =~~= seq![act.push(c) + r[0]] + r.drop_first());
        } else {
            assert(pega_piezas(act, resto) =~~= seq![act.push(c) + r[0]] + r.drop_first());
        }
        assert(pega_piezas(act.push(c), resto2) =~~= seq![act.push(c) + r[0]] + r.drop_first());
    } else {
        assert(piezas(resto) =~~= seq![seq![c]] + piezas(resto2));
        assert(act + seq![c] =~= act.push(c));
        if act.len() == 0 {
            assert(pega_piezas(act, resto) =~~= seq![act.push(c)] + piezas(resto2));
        } else {
            assert(pega_piezas(act, resto) =~~= seq![act.push(c)] + piezas(resto2));
        }
        assert(pega_piezas(act.push(c), resto2) =~~= seq![act.push(c)] + piezas(resto2));
    }
}

/// The whitespace-separated tokens of `v`.
pub fn piezas_v(v: &Vec<char>) -> (r: Vec<Vec<char>>)
    ensures
        r.deep_view() == piezas(v@),
{
    let mut res: Vec<Vec<char>> = Vec::new();
    let mut actual: Vec<char> = Vec::new();
    let mut i: usize = 0;
    proof {
        assert(v@.subrange(0, v@.len() as int) =~= v@);
        assert(res.deep_view() + pega_piezas(actual@, v@) =~~= piezas(v@));
    }
    while i < v.len()
        invariant
            i <= v@.len(),
            piezas(v@) == res.deep_view() + pega_piezas(
                actual@,
                v@.subrange(i as int, v@.len() as int),
            ),
        decreases v@.len() - i,
    {
        let ghost resto = v@.subrange(i as int, v@.len() as int);
        let ghost res0 = res.deep_view();
        let ghost act0 = actual@;
        proof {
            assert(resto.len() > 0 && resto[0] == v@[i as int]);
            assert(resto.drop_first() =~= v@.subrange(i as int + 1, v@.len() as int));
        }
        let c = v[i];
        if es_blanco_exec(c) {
            if actual.len() > 0 {
                let terminada = actual;
                actual = Vec::new();
                res.push(terminada);
                proof {
                    assert(pega_piezas(act0, resto) =~~= seq![act0] + piezas(resto.drop_first()));
                    assert(res.deep_view() =~~= res0.push(act0));
                    assert(pega_piezas(actual@, resto.drop_first()) =~~= piezas(resto.drop_first()));
                    assert(res0 + (seq![act0] + piezas(resto.drop_first())) =~~= res0.push(act0)
                        + piezas(resto.drop_first()));
                }
            } else {
                proof {
                    assert(pega_piezas(act0, resto) =~~= piezas(resto.drop_first()));
                }
            }
        } else {
            actual.push(c);
            proof {
                lemma_pega_piezas_paso(act0, resto);
                assert(actual@ =~= act0.push(c));
            }
        }
        i += 1;
    }
    proof {
        assert(v@.subrange(v@.len() as int, v@.len() as int) =~= Seq::<char>::empty());
    }
    if actual.len() > 0 {
        let ghost res0 = res.deep_view();
        let ghost act0 = actual@;
        res.push(actual);
        proof {
            assert(pega_piezas(act0, Seq::<char>::empty()) =~~= seq![act0]);
            assert(res.deep_view() =~~= res0.push(act0));
            assert(res0 + seq![act0] =~~= res0.push(act0));
        }
    } else {
        proof {
            assert(pega_piezas(actual@, Seq::<char>::empty()) =~~= Seq::<Seq<char>>::empty());
            assert(res.deep_view() + Seq::<Seq<char>>::empty() =~~= res.deep_view());
        }
    }
    res
}

/// `s` with every occurrence of `c` removed, as `str::replace` with an empty
/// replacement gives it.
pub open spec fn sin_char(s: Seq<char>, c: char) -> Seq<char>
    decreases s.len(),
{
    if s.len() == 0 {
        s
    } else if s[0] == c {
        sin_char(s.drop_first(), c)
    } else {
        seq![s[0]] + sin_char(s.drop_first(), c)
    }
}

/// `v` with every occurrence of `c` removed.
pub fn sin_char_v(v: &Vec<char>, c: char) -> (r: Vec<char>)
    ensures
        r@ == sin_char(v@, c),
{
    let mut res: Vec<char> = Vec::new();
    let mut i: usize = 0;
    proof {
        assert(v@.subrange(0, v@.len() as int) =~= v@);
    }
    while i < v.len()
        invariant
            i <= v@.len(),
            sin_char(v@, c) == res@ + sin_char(v@.subrange(i as int, v@.len() as int), c),
        decreases v@.len() - i,
    {
        let ghost resto = v@.subrange(i as int, v@.len() as int);
        let ghost res0 = res@;
        proof {
            assert(resto.len() > 0 && resto[0] == v@[i as int]);
            assert(resto.drop_first() =~= v@.subrange(i as int + 1, v@.len() as int));
        }
        if v[i] != c {
            res.push(v[i]);
            proof {
                assert(res0 + (seq![v@[i as int]] + sin_char(resto.drop_first(), c)) =~= res@
                    + sin_char(resto.drop_first(), c));
            }
        }
        i += 1;
    }
    proof {
        assert(v@.subrange(v@.len() as int, v@.len() as int) =~= Seq::<char>::empty());
        assert(res@ + Seq::<char>::empty() =~= res@);
    }
    res
}

/// `s` with every leading and trailing single quote removed, as
/// `str::trim_matches('\'')` gives it.
pub open spec fn sin_comillas(s: Seq<char>) -> Seq<char> {
    recorta_fin(recorta_ini(s, |c: char| c == '\''), |c: char| c == '\'')
}

/// `v` with every leading and trailing single quote removed.
pub fn sin_comillas_v(v: &Vec<char>) -> (r: Vec<char>)
    ensures
        r@ == sin_comillas(v@),
{
    let mut ini: usize = 0;
    while ini < v.len() && v[ini] == '\''
        invariant
            ini <= v@.len(),
            forall|j: int| 0 <= j < ini ==> v@[j] == '\'',
        decreases v@.len() - ini,
    {
        ini += 1;
    }
    proof {
        lemma_recorta_ini_indice(v@, |c: char| c == '\'', ini as int);
    }
    let ghost t = recorta_ini(v@, |c: char| c == '\'');
    let mut fin: usize = v.len();
    while fin > ini && v[fin - 1] == '\''
        invariant
            ini <= fin <= v@.len(),
            forall|j: int| fin <= j < v@.len() ==> v@[j] == '\'',
        decreases fin,
    {
        fin -= 1;
    }
    proof {
        assert(t =~= v@.subrange(ini as int, v@.len() as int));
        assert(forall|j: int| fin - ini <= j < t.len() ==> t[j] == '\'');
        if fin > ini {
            assert(t[fin - ini - 1] == v@[fin - 1]);
        }
        lemma_recorta_fin_indice(t, |c: char| c == '\'', fin - ini);
        assert(t.subrange(0, fin - ini) =~= v@.subrange(ini as int, fin as int));
    }
    subvec(v, ini, fin)
}

/// `s` with every trailing occurrence of `c` removed, as
/// `str::trim_end_matches` gives it.
pub open spec fn recorta_fin_char(s: Seq<char>, c: char) -> Seq<char>
    decreases s.len(),
{
    if s.len() > 0 && s.last() == c {
        recorta_fin_char(s.drop_last(), c)
    } else {
        s
    }
}

pub proof fn lemma_recorta_fin_char_indice(s: Seq<char>, c: char, i: int)
    requires
        0 <= i <= s.len(),
        forall|j: int| i <= j < s.len() ==> s[j] == c,
        i > 0 ==> s[i - 1] != c,
    ensures
        recorta_fin_char(s, c) =~= s.subrange(0, i),
    decreases s.len() - i,
{
    if i == s.len() {
        assert(recorta_fin_char(s, c) =~= s.subrange(0, s.len() as int));
    } else {
        assert(s.last() == c);
        let t = s.drop_last();
        assert(forall|j: int| i <= j < t.len() ==> t[j] == s[j] && s[j] == c);
        lemma_recorta_fin_char_indice(t, c, i);
        assert(t.subrange(0, i) =~= s.subrange(0, i));
    }
}

/// `v` with every trailing occurrence of `c` removed.
pub fn recorta_fin_char_v(v: &Vec<char>, c: char) -> (r: Vec<char>)
    ensures
        r@ == recorta_fin_char(v@, c),
{
    let mut fin: usize = v.len();
    while fin > 0 && v[fin - 1] == c
        invariant
            fin <= v@.len(),
            forall|j: int| fin <= j < v@.len() ==> v@[j] == c,
        decreases fin,
    {
        fin -= 1;
    }
    proof {
        lemma_recorta_fin_char_indice(v@, c, fin as int);
    }
    subvec(v, 0, fin)
}

/// `s` with one surrounding pair of single quotes removed, where both are
/// present; otherwise `s` unchanged.
pub open spec fn quitar_par_comillas(s: Seq<char>) -> Seq<char> {
    if s.len() >= 2 && s[0] == '\'' && s.last() == '\'' {
        s.subrange(1, s.len() - 1)
    } else {
        s
    }
}

/// `v` with one surrounding pair of single quotes removed, if present.
pub fn quitar_par_comillas_v(v: &Vec<char>) -> (r: Vec<char>)
    ensures
        r@ == quitar_par_comillas(v@),
{
    if v.len() >= 2 && v[0] == '\'' && v[v.len() - 1] == '\'' {
        subvec(v, 1, v.len() - 1)
    } else {
        let mut r: Vec<char> = Vec::new();
        let mut i: usize = 0;
        while i < v.len()
            invariant
                i <= v@.len(),
                r@ == v@.subrange(0, i as int),
            decreases v@.len() - i,
        {
            r.push(v[i]);
            proof {
                assert(v@.subrange(0, i as int).push(v@[i as int]) =~= v@.subrange(
                    0,
                    i as int + 1,
                ));
            }
            i += 1;
        }
        proof {
            assert(v@.subrange(0, v@.len() as int) =~= v@);
        }
        r
    }
}

} // verus!

verus! {

/// A decimal digit.
pub open spec fn es_digito(c: char) -> bool {
    48 <= c as u32 <= 57
}

/// Every character of `s` is a decimal digit.
pub open spec fn todos_digitos(s: Seq<char>) -> bool {
    forall|i: int| 0 <= i < s.len() ==> es_digito(s[i])
}

/// The value of a run of decimal digits.
pub open spec fn valor_digitos(s: Seq<char>) -> int
    decreases s.len(),
{
    if s.len() == 0 {
        0
    } else {
        valor_digitos(s.drop_last()) * 10 + (s.last() as u32 - 48)
    }
}

/// The digits of an integer literal: what follows the optional sign.
pub open spec fn cuerpo_entero(s: Seq<char>) -> Seq<char> {
    if s.len() > 0 && (s[0] == '+' || s[0] == '-') {
        s.drop_first()
    } else {
        s
    }
}

/// The literal carries a minus sign.
pub open spec fn es_negativo(s: Seq<char>) -> bool {
    s.len() > 0 && s[0] == '-'
}

/// `s` parses as a base-10 `i32`: an optional sign, then at least one digit,
/// with the signed value in range.
pub open spec fn es_int_spec(s: Seq<char>) -> bool {
    let d = cuerpo_entero(s);
    d.len() > 0 && todos_digitos(d) && (if es_negativo(s) {
        valor_digitos(d) <= 2147483648
    } else {
        valor_digitos(d) <= 2147483647
    })
}

/// The signed value of an integer literal.
pub open spec fn valor_int_spec(s: Seq<char>) -> int {
    if es_negativo(s) {
        -valor_digitos(cuerpo_entero(s))
    } else {
        valor_digitos(cuerpo_entero(s))
    }
}

pub proof fn lemma_valor_no_negativo(s: Seq<char>)
    requires
        todos_digitos(s),
    ensures
        valor_digitos(s) >= 0,
    decreases s.len(),
{
    if s.len() > 0 {
        assert(forall|i: int| 0 <= i < s.len() - 1 ==> es_digito(s.drop_last()[i]));
        lemma_valor_no_negativo(s.drop_last());
        assert(es_digito(s.last()));
    }
}

/// Appending digits can only grow the value.
pub proof fn lemma_valor_prefijo(s: Seq<char>, k: int)
    requires
        todos_digitos(s),
        0 <= k <= s.len(),
    ensures
        valor_digitos(s) >= valor_digitos(s.subrange(0, k)),
    decreases s.len() - k,
{
    if k == s.len() {
        assert(s.subrange(0, k) =~= s);
    } else {
        let t = s.drop_last();
        assert(forall|i: int| 0 <= i < t.len() ==> es_digito(t[i]));
        lemma_valor_prefijo(t, k);
        assert(t.subrange(0, k) =~= s.subrange(0, k));
        lemma_valor_no_negativo(t);
        assert(es_digito(s.last()));
        assert(valor_digitos(s) == valor_digitos(t) * 10 + (s.last() as u32 - 48));
        assert(valor_digitos(t) * 10 >= valor_digitos(t));
    }
}

/// Parses `v` as a base-10 `i32`-ranged integer, if it is one.
pub fn parsear_int_v(v: &Vec<char>) -> (r: Option<i64>)
    ensures
        match r {
            Some(x) => es_int_spec(v@) && x as int == valor_int_spec(v@),
            None => !es_int_spec(v@),
        },
{
    let negativo = v.len() > 0 && v[0] == '-';
    let st: usize = if v.len() > 0 && (v[0] == '+' || v[0] == '-') {
        1
    } else {
        0
    };
    proof {
        assert(cuerpo_entero(v@) =~= v@.subrange(st as int, v@.len() as int));
    }
    if st >= v.len() {
        return None;
    }
    let n = v.len();
    let mut acc: i64 = 0;
    let mut i: usize = st;
    proof {
        assert(v@.subrange(st as int, st as int) =~= Seq::<char>::empty());
    }
    while i < n
        invariant
            n == v@.len(),
            st <= i <= n,
            cuerpo_entero(v@) == v@.subrange(st as int, v@.len() as int),
            todos_digitos(v@.subrange(st as int, i as int)),
            0 <= acc <= 2147483648,
            acc as int == valor_digitos(v@.subrange(st as int, i as int)),
        decreases n - i,
    {
        let u = v[i] as u32;
        if u < 48 || u > 57 {
            proof {
                assert(!es_digito(cuerpo_entero(v@)[i - st]));
            }
            return None;
        }
        let d = (u - 48) as i64;
        let nuevo = acc * 10 + d;
        proof {
            assert(v@.subrange(st as int, i as int + 1).drop_last() =~= v@.subrange(
                st as int,
                i as int,
            ));
            assert(v@.subrange(st as int, i as int + 1).last() == v@[i as int]);
            assert(forall|j: int|
                0 <= j < i as int + 1 - st ==> es_digito(
                    #[trigger] v@.subrange(st as int, i as int + 1)[j],
                ));
        }
        if nuevo > 2147483648 {
            proof {
                let d_total = cuerpo_entero(v@);
                if todos_digitos(d_total) {
                    lemma_valor_prefijo(d_total, i as int + 1 - st);
                    assert(d_total.subrange(0, i as int + 1 - st) =~= v@.subrange(
                        st as int,
                        i as int + 1,
                    ));
                }
            }
            return None;
        }
        acc = nuevo;
        i += 1;
    }
    proof {
        assert(v@.subrange(st as int, n as int) =~= cuerpo_entero(v@));
    }
    if negativo {
        proof {
            assert(es_negativo(v@));
        }
        Some(-acc)
    } else {
        if acc > 2147483647 {
            return None;
        }
        proof {
            assert(!es_negativo(v@));
        }
        Some(acc)
    }
}

/// Whether `valor` parses as a base-10 integer; the test the engine uses to
/// pick numeric comparison over string comparison.
pub fn es_int(valor: &str) -> (r: bool)
    ensures
        r == es_int_spec(valor@),
{
    let v = a_chars(valor);
    parsear_int_v(&v).is_some()
}

/// Strict lexicographic order on character sequences, by code point.
pub open spec fn lex_lt(a: Seq<char>, b: Seq<char>) -> bool
    decreases a.len(),
{
    if b.len() == 0 {
        false
    } else if a.len() == 0 {
        true
    } else if a[0] < b[0] {
        true
    } else if a[0] == b[0] {
        lex_lt(a.drop_first(), b.drop_first())
    } else {
        false
    }
}

/// Of two sequences, one is smaller, or they are equal.
pub proof fn lemma_lex_tricotomia(a: Seq<char>, b: Seq<char>)
    ensures
        lex_lt(a, b) || lex_lt(b, a) || a == b,
    decreases a.len(),
{
    if b.len() == 0 {
        if a.len() == 0 {
            assert(a =~= b);
        }
    } else if a.len() == 0 {
    } else {
        if a[0] < b[0] {
        } else if b[0] < a[0] {
        } else {
            assert(a[0] == b[0]);
            lemma_lex_tricotomia(a.drop_first(), b.drop_first());
            if a.drop_first() == b.drop_first() {
                assert(a.drop_first().len() == b.drop_first().len());
                assert(a.drop_first().len() == a.len() - 1);
                assert(b.drop_first().len() == b.len() - 1);
                assert(a.len() == b.len());
                assert forall|i: int| 0 <= i < a.len() implies a[i] == b[i] by {
                    if i > 0 {
                        assert(a.drop_first()[i - 1] == b.drop_first()[i - 1]);
                        assert(a[i] == a.drop_first()[i - 1]);
                        assert(b[i] == b.drop_first()[i - 1]);
                    }
                }
                assert(a =~= b);
            }
        }
    }
}

/// A sequence is never smaller than itself.
pub proof fn lemma_lex_irreflexiva(a: Seq<char>)
    ensures
        !lex_lt(a, a),
    decreases a.len(),
{
    if a.len() > 0 {
        lemma_lex_irreflexiva(a.drop_first());
    }
}

/// Two sequences are never each smaller than the other.
pub proof fn lemma_lex_asimetria(a: Seq<char>, b: Seq<char>)
    ensures
        !(lex_lt(a, b) && lex_lt(b, a)),
    decreases a.len(),
{
    if a.len() > 0 && b.len() > 0 && a[0] == b[0] {
        lemma_lex_asimetria(a.drop_first(), b.drop_first());
    }
}

/// Lexicographic order is transitive.
pub proof fn lemma_lex_transitiva(a: Seq<char>, b: Seq<char>, c: Seq<char>)
    requires
        lex_lt(a, b),
        lex_lt(b, c),
    ensures
        lex_lt(a, c),
    decreases a.len(),
{
    if a.len() > 0 && b.len() > 0 && c.len() > 0 && a[0] == b[0] && b[0] == c[0] {
        lemma_lex_transitiva(a.drop_first(), b.drop_first(), c.drop_first());
    }
}

proof fn lemma_lex_salto(a: Seq<char>, b: Seq<char>, i: int)
    requires
        0 <= i <= a.len(),
        i <= b.len(),
        forall|j: int| 0 <= j < i ==> a[j] == b[j],
    ensures
        lex_lt(a, b) == lex_lt(a.subrange(i, a.len() as int), b.subrange(i, b.len() as int)),
    decreases i,
{
    if i == 0 {
        assert(a.subrange(0, a.len() as int) =~= a);
        assert(b.subrange(0, b.len() as int) =~= b);
    } else {
        assert(a[0] == b[0]);
        assert(a.len() > 0 && b.len() > 0);
        lemma_lex_salto(a.drop_first(), b.drop_first(), i - 1);
        assert(a.drop_first().subrange(i - 1, a.len() - 1) =~= a.subrange(i, a.len() as int));
        assert(b.drop_first().subrange(i - 1, b.len() - 1) =~= b.subrange(i, b.len() as int));
    }
}

/// Whether `a` comes strictly before `b` in lexicographic order.
pub fn lex_lt_v(a: &Vec<char>, b: &Vec<char>) -> (r: bool)
    ensures
        r == lex_lt(a@, b@),
{
    let mut i: usize = 0;
    let na = a.len();
    let nb = b.len();
    while i < na && i < nb
        invariant
            na == a@.len(),
            nb == b@.len(),
            i <= na,
            i <= nb,
            forall|j: int| 0 <= j < i ==> a@[j] == b@[j],
        decreases na - i,
    {
        if a[i] != b[i] {
            proof {
                lemma_lex_salto(a@, b@, i as int);
            }
            return a[i] < b[i];
        }
        i += 1;
    }
    proof {
        lemma_lex_salto(a@, b@, i as int);
    }
    i == na && i < nb
}

} // verus!

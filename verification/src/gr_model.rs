use vstd::prelude::*;
use vstd::arithmetic::div_mod::lemma_div_is_ordered;
use vstd::arithmetic::div_mod::lemma_div_multiples_vanish;
use vstd::arithmetic::mul::lemma_mul_inequality;
use crate::point::Pt3;
use crate::point::seq3_ok;
use crate::warp::cost_mat3;
use crate::warp::dtw3_cost;
use crate::warp::mat_int;
use crate::warp::build_cost3;
use crate::warp::build_warp;
use crate::warp::lemma_cost_mat3_ok;
use crate::GrError;
use crate::LEN_LIMIT;

verus! {

/// One gesture recording: an identifier, the class label, and the
/// integer-quantised 3-D sample sequence.
pub struct DataRecord {
    pub id: u32,
    pub gesture: u32,
    pub sequence: Vec<Pt3>,
}

/// Records a classifier can work on: non-empty, in-bounds sequences of
/// acceptable length.
pub open spec fn records_ok(s: Seq<DataRecord>) -> bool {
    forall|i: int|
        0 <= i < s.len() ==> 1 <= (#[trigger] s[i]).sequence@.len() <= LEN_LIMIT && seq3_ok(
            s[i].sequence@,
        )
}

/// Two records carry the same data.
pub open spec fn rec_eq(a: DataRecord, b: DataRecord) -> bool {
    a.id == b.id && a.gesture == b.gesture && a.sequence@ == b.sequence@
}

/// The template store holds label g with template t.
pub open spec fn has_tpl(s: Seq<(u32, Vec<Pt3>)>, g: u32, t: Seq<Pt3>) -> bool {
    exists|i: int| 0 <= i < s.len() && (#[trigger] s[i]).0 == g && s[i].1@ == t
}

/// No label occurs twice in the template store.
pub open spec fn labels_unique(s: Seq<(u32, Vec<Pt3>)>) -> bool {
    forall|i: int, j: int|
        0 <= i < j < s.len() ==> (#[trigger] s[i]).0 != (#[trigger] s[j]).0
}

/// A well-formed template store: unique labels, usable template sequences.
pub open spec fn model_ok(s: Seq<(u32, Vec<Pt3>)>) -> bool {
    &&& labels_unique(s)
    &&& forall|i: int|
        0 <= i < s.len() ==> 1 <= (#[trigger] s[i]).1@.len() <= LEN_LIMIT && seq3_ok(s[i].1@)
}

/// The template the training records leave for label k: the sequence of
/// the last record with that label, if any (last writer wins).
pub open spec fn last_tpl(recs: Seq<DataRecord>, k: u32) -> Option<Seq<Pt3>>
    decreases recs.len(),
{
    if recs.len() == 0 {
        Option::None
    } else if recs.last().gesture == k {
        Option::Some(recs.last().sequence@)
    } else {
        last_tpl(recs.drop_last(), k)
    }
}

/// Label g with cost c is the classification verdict for query q: some
/// template of g costs c, no template costs less, and among templates that
/// tie at c, g is the lowest label.
pub open spec fn is_best_with(s: Seq<(u32, Vec<Pt3>)>, q: Seq<Pt3>, g: u32, c: int) -> bool {
    &&& exists|t: Seq<Pt3>| #[trigger] has_tpl(s, g, t) && dtw3_cost(t, q) == c
    &&& forall|k: u32, t: Seq<Pt3>|
        #[trigger] has_tpl(s, k, t) ==> dtw3_cost(t, q) >= c && (dtw3_cost(t, q) == c ==> g <= k)
}

/// A test record is classified correctly: its own label wins.
pub open spec fn is_correct(s: Seq<(u32, Vec<Pt3>)>, rec: DataRecord) -> bool {
    exists|c: int| is_best_with(s, rec.sequence@, rec.gesture, c)
}

/// How many of the records the classifier labels correctly.
pub open spec fn correct_count(s: Seq<(u32, Vec<Pt3>)>, recs: Seq<DataRecord>) -> int
    decreases recs.len(),
{
    if recs.len() == 0 {
        0
    } else {
        correct_count(s, recs.drop_last()) + if is_correct(s, recs.last()) {
            1int
        } else {
            0int
        }
    }
}

/// LAW (verdict uniqueness): the classification verdict is deterministic;
/// two verdicts for the same store and query agree on label and cost.
pub proof fn lemma_best_unique(
    s: Seq<(u32, Vec<Pt3>)>,
    q: Seq<Pt3>,
    g1: u32,
    c1: int,
    g2: u32,
    c2: int,
)
    requires
        is_best_with(s, q, g1, c1),
        is_best_with(s, q, g2, c2),
    ensures
        g1 == g2,
        c1 == c2,
{
    let t1 = choose|t: Seq<Pt3>| #[trigger] has_tpl(s, g1, t) && dtw3_cost(t, q) == c1;
    let t2 = choose|t: Seq<Pt3>| #[trigger] has_tpl(s, g2, t) && dtw3_cost(t, q) == c2;
    assert(has_tpl(s, g1, t1));
    assert(has_tpl(s, g2, t2));
}

/// The nearest-template gesture classifier: one representative sequence
/// per class label, trained from records, queried by minimum warping cost.
pub struct GRModel {
    train_data: Vec<DataRecord>,
    test_data: Vec<DataRecord>,
    dba_model: Vec<(u32, Vec<Pt3>)>,
}

impl GRModel {
    pub closed spec fn spec_train(self) -> Seq<DataRecord> {
        self.train_data@
    }

    pub closed spec fn spec_test(self) -> Seq<DataRecord> {
        self.test_data@
    }

    pub closed spec fn spec_model(self) -> Seq<(u32, Vec<Pt3>)> {
        self.dba_model@
    }

    pub closed spec fn wf(self) -> bool {
        &&& records_ok(self.train_data@)
        &&& records_ok(self.test_data@)
        &&& model_ok(self.dba_model@)
    }

    /// A classifier over the given training and test records, with an
    /// empty template store.
    pub fn new(train_data: Vec<DataRecord>, test_data: Vec<DataRecord>) -> (r: GRModel)
        requires
            records_ok(train_data@),
            records_ok(test_data@),
        ensures
            r.wf(),
            r.spec_train() == train_data@,
            r.spec_test() == test_data@,
            r.spec_model().len() == 0,
    {
        GRModel { train_data, test_data, dba_model: Vec::new() }
    }

    /// Stores a template for a label, overwriting any earlier one.
    #[verifier::loop_isolation(false)]
    fn update_sequences(&mut self, gesture: u32, sequence: Vec<Pt3>)
        requires
            old(self).wf(),
            1 <= sequence@.len() <= LEN_LIMIT,
            seq3_ok(sequence@),
        ensures
            final(self).wf(),
            final(self).spec_train() == old(self).spec_train(),
            final(self).spec_test() == old(self).spec_test(),
            forall|t: Seq<Pt3>| #[trigger] has_tpl(final(self).spec_model(), gesture, t) <==> t
                == sequence@,
            forall|k: u32, t: Seq<Pt3>|
                k != gesture ==> (#[trigger] has_tpl(final(self).spec_model(), k, t) <==> has_tpl(
                    old(self).spec_model(),
                    k,
                    t,
                )),
    {
        let ghost s = self.dba_model@;
        let n = self.dba_model.len();
        let mut i: usize = 0;
        while i < n && self.dba_model[i].0 != gesture
            invariant
                i <= n,
                n == self.dba_model@.len(),
                self == old(self),
                forall|j: int| 0 <= j < i ==> (#[trigger] self.dba_model@[j]).0 != gesture,
            decreases n - i,
        {
            i += 1;
        }
        if i < n {
            self.dba_model[i] = (gesture, sequence);
            proof {
                let s2 = self.dba_model@;
                assert(s2 == s.update(i as int, (gesture, self.dba_model@[i as int].1)));
                assert(s2[i as int].0 == gesture && s2[i as int].1@ == sequence@);
                assert forall|t: Seq<Pt3>| #[trigger] has_tpl(s2, gesture, t) implies t
                    == sequence@ by {
                    let j = choose|j: int| 0 <= j < s2.len() && (#[trigger] s2[j]).0 == gesture
                        && s2[j].1@ == t;
                    if j != i {
                        assert(s[j] == s2[j]);
                        assert(s[i as int].0 == gesture);
                    }
                }
                assert forall|k: u32, t: Seq<Pt3>| k != gesture implies (#[trigger] has_tpl(
                    s2,
                    k,
                    t,
                ) <==> has_tpl(s, k, t)) by {
                    if has_tpl(s2, k, t) {
                        let j = choose|j: int| 0 <= j < s2.len() && (#[trigger] s2[j]).0 == k
                            && s2[j].1@ == t;
                        assert(s[j] == s2[j]);
                        assert(has_tpl(s, k, t));
                    }
                    if has_tpl(s, k, t) {
                        let j = choose|j: int| 0 <= j < s.len() && (#[trigger] s[j]).0 == k
                            && s[j].1@ == t;
                        assert(s[i as int].0 == gesture);
                        assert(j != i);
                        assert(s2[j] == s[j]);
                        assert(has_tpl(s2, k, t));
                    }
                }
            }
        } else {
            self.dba_model.push((gesture, sequence));
            proof {
                let s2 = self.dba_model@;
                assert(s2 == s.push((gesture, self.dba_model@[s.len() as int].1)));
                assert(s2[s.len() as int].0 == gesture && s2[s.len() as int].1@ == sequence@);
                assert forall|t: Seq<Pt3>| #[trigger] has_tpl(s2, gesture, t) implies t
                    == sequence@ by {
                    let j = choose|j: int| 0 <= j < s2.len() && (#[trigger] s2[j]).0 == gesture
                        && s2[j].1@ == t;
                    if j != s.len() {
                        assert(s[j] == s2[j]);
                    }
                }
                assert forall|k: u32, t: Seq<Pt3>| k != gesture implies (#[trigger] has_tpl(
                    s2,
                    k,
                    t,
                ) <==> has_tpl(s, k, t)) by {
                    if has_tpl(s2, k, t) {
                        let j = choose|j: int| 0 <= j < s2.len() && (#[trigger] s2[j]).0 == k
                            && s2[j].1@ == t;
                        assert(j != s.len());
                        assert(s[j] == s2[j]);
                        assert(has_tpl(s, k, t));
                    }
                    if has_tpl(s, k, t) {
                        let j = choose|j: int| 0 <= j < s.len() && (#[trigger] s[j]).0 == k
                            && s[j].1@ == t;
                        assert(s2[j] == s[j]);
                        assert(has_tpl(s2, k, t));
                    }
                }
            }
        }
    }

    /// Trains the template store from the training records, in order:
    /// for every label, the last record with that label leaves its
    /// sequence as the template (no averaging or merging).
    #[verifier::loop_isolation(false)]
    pub fn train(&mut self)
        requires
            old(self).wf(),
        ensures
            final(self).wf(),
            final(self).spec_train() == old(self).spec_train(),
            final(self).spec_test() == old(self).spec_test(),
            forall|k: u32, t: Seq<Pt3>|
                #[trigger] has_tpl(final(self).spec_model(), k, t) <==> (match last_tpl(
                    old(self).spec_train(),
                    k,
                ) {
                    Option::Some(u) => t == u,
                    Option::None => has_tpl(old(self).spec_model(), k, t),
                }),
    {
        let ghost recs = self.train_data@;
        let n = self.train_data.len();
        let mut i: usize = 0;
        while i < n
            invariant
                i <= n,
                n == recs.len(),
                self.wf(),
                self.train_data@ == recs,
                self.test_data@ == old(self).test_data@,
                forall|k: u32, t: Seq<Pt3>|
                    #[trigger] has_tpl(self.spec_model(), k, t) <==> (match last_tpl(
                        recs.take(i as int),
                        k,
                    ) {
                        Option::Some(u) => t == u,
                        Option::None => has_tpl(old(self).spec_model(), k, t),
                    }),
            decreases n - i,
        {
            let ghost before = self.dba_model@;
            let gesture = self.train_data[i].gesture;
            let sequence = clone_pts(&self.train_data[i].sequence);
            self.update_sequences(gesture, sequence);
            proof {
                assert(recs.take(i as int + 1).drop_last() =~= recs.take(i as int));
                assert(recs.take(i as int + 1).last() == recs[i as int]);
                assert forall|k: u32, t: Seq<Pt3>|
                    #[trigger] has_tpl(self.spec_model(), k, t) <==> (match last_tpl(
                        recs.take(i as int + 1),
                        k,
                    ) {
                        Option::Some(u) => t == u,
                        Option::None => has_tpl(old(self).spec_model(), k, t),
                    }) by {
                    if k != gesture {
                        assert(has_tpl(self.spec_model(), k, t) <==> has_tpl(before, k, t));
                    }
                }
            }
            i += 1;
        }
        proof {
            assert(recs.take(n as int) =~= recs);
        }
    }

    /// Classifies a query sequence: the label of the template with the
    /// least warping cost, the lowest label on ties; fails if and only if
    /// no template has been trained.
    #[verifier::loop_isolation(false)]
    pub fn classify(&self, sequence: &Vec<Pt3>) -> (r: Result<(u32, u64), GrError>)
        requires
            self.wf(),
            1 <= sequence@.len() <= LEN_LIMIT,
            seq3_ok(sequence@),
        ensures
            r is Err <==> self.spec_model().len() == 0,
            r is Err ==> r == Result::<(u32, u64), GrError>::Err(GrError::NoTemplates),
            r is Ok ==> is_best_with(
                self.spec_model(),
                sequence@,
                r->Ok_0.0,
                r->Ok_0.1 as int,
            ),
    {
        let ghost s = self.dba_model@;
        let ghost q = sequence@;
        let n = self.dba_model.len();
        if n == 0 {
            return Err(GrError::NoTemplates);
        }
        let mut best_g: u32 = self.dba_model[0].0;
        let mut best_c: u64 = dtw3_total(&self.dba_model[0].1, sequence);
        let mut i: usize = 1;
        while i < n
            invariant
                1 <= i <= n,
                n == s.len(),
                exists|j: int|
                    0 <= j < i && (#[trigger] s[j]).0 == best_g && dtw3_cost(s[j].1@, q)
                        == best_c,
                forall|j: int|
                    0 <= j < i ==> dtw3_cost((#[trigger] s[j]).1@, q) >= best_c && (dtw3_cost(
                        s[j].1@,
                        q,
                    ) == best_c ==> best_g <= s[j].0),
            decreases n - i,
        {
            let g = self.dba_model[i].0;
            let c = dtw3_total(&self.dba_model[i].1, sequence);
            if c < best_c || (c == best_c && g < best_g) {
                best_g = g;
                best_c = c;
            }
            i += 1;
        }
        proof {
            let j0 = choose|j: int|
                0 <= j < n && (#[trigger] s[j]).0 == best_g && dtw3_cost(s[j].1@, q) == best_c;
            assert(has_tpl(s, best_g, s[j0].1@));
            assert forall|k: u32, t: Seq<Pt3>| #[trigger] has_tpl(s, k, t) implies dtw3_cost(t, q)
                >= best_c && (dtw3_cost(t, q) == best_c ==> best_g <= k) by {
                let j = choose|j: int| 0 <= j < s.len() && (#[trigger] s[j]).0 == k && s[j].1@
                    == t;
                assert(dtw3_cost(s[j].1@, q) >= best_c);
            }
        }
        Ok((best_g, best_c))
    }

    /// Classifies every test record against the trained templates and
    /// tallies how many got their own label back; fails if and only if
    /// there are test records but no templates.
    #[verifier::loop_isolation(false)]
    pub fn test(&self) -> (r: Result<(usize, usize), GrError>)
        requires
            self.wf(),
        ensures
            r is Err <==> (self.spec_model().len() == 0 && self.spec_test().len() > 0),
            r is Err ==> r == Result::<(usize, usize), GrError>::Err(GrError::NoTemplates),
            r is Ok ==> ({
                let (correct, total) = r->Ok_0;
                &&& total == self.spec_test().len()
                &&& correct == correct_count(self.spec_model(), self.spec_test())
                &&& correct <= total
            }),
    {
        let ghost s = self.dba_model@;
        let ghost recs = self.test_data@;
        let total = self.test_data.len();
        if total == 0 {
            return Ok((0, 0));
        }
        if self.dba_model.len() == 0 {
            return Err(GrError::NoTemplates);
        }
        let mut correct: usize = 0;
        let mut i: usize = 0;
        while i < total
            invariant
                i <= total,
                total == recs.len(),
                correct <= i,
                s.len() > 0,
                correct == correct_count(s, recs.take(i as int)),
            decreases total - i,
        {
            let rec_gesture = self.test_data[i].gesture;
            match self.classify(&self.test_data[i].sequence) {
                Ok(verdict) => {
                    let g = verdict.0;
                    let c = verdict.1;
                    proof {
                        let rec = recs[i as int];
                        if g == rec_gesture {
                            assert(is_best_with(s, rec.sequence@, rec.gesture, c as int));
                            assert(is_correct(s, rec));
                        } else {
                            if is_correct(s, rec) {
                                let cc = choose|cc: int|
                                    is_best_with(s, rec.sequence@, rec.gesture, cc);
                                lemma_best_unique(s, rec.sequence@, g, c as int, rec.gesture, cc);
                                assert(false);
                            }
                        }
                        assert(recs.take(i as int + 1).drop_last() =~= recs.take(i as int));
                        assert(recs.take(i as int + 1).last() == rec);
                    }
                    if g == rec_gesture {
                        correct += 1;
                    }
                },
                Err(_) => {
                    proof {
                        assert(false);
                    }
                },
            }
            i += 1;
        }
        proof {
            assert(recs.take(total as int) =~= recs);
        }
        Ok((correct, total))
    }
}

/// The total warping cost of a template against a query.
fn dtw3_total(t: &Vec<Pt3>, q: &Vec<Pt3>) -> (r: u64)
    requires
        1 <= t@.len() <= LEN_LIMIT,
        1 <= q@.len() <= LEN_LIMIT,
        seq3_ok(t@),
        seq3_ok(q@),
    ensures
        r == dtw3_cost(t@, q@),
{
    let c = build_cost3(t, q);
    proof {
        lemma_cost_mat3_ok(t@, q@);
        assert(mat_int(c.deep_view()) =~~= cost_mat3(t@, q@));
    }
    let w = build_warp(&c);
    w[t.len()][q.len()]
}

/// An element-wise copy of a sample sequence.
#[verifier::loop_isolation(false)]
fn clone_pts(v: &Vec<Pt3>) -> (c: Vec<Pt3>)
    ensures
        c@ == v@,
{
    let mut c: Vec<Pt3> = Vec::new();
    let mut i: usize = 0;
    while i < v.len()
        invariant
            i <= v@.len(),
            c@.len() == i,
            forall|t: int| 0 <= t < i ==> #[trigger] c@[t] == v@[t],
        decreases v@.len() - i,
    {
        c.push(v[i]);
        i += 1;
    }
    proof {
        assert(c@ =~= v@);
    }
    c
}

/// A field-wise copy of a record.
fn clone_record(r: &DataRecord) -> (c: DataRecord)
    ensures
        rec_eq(c, *r),
{
    DataRecord { id: r.id, gesture: r.gesture, sequence: clone_pts(&r.sequence) }
}

/// Combines per-axis coordinate lists into one 3-D sample sequence;
/// fails if and only if the axes have unequal lengths.
#[verifier::loop_isolation(false)]
pub fn zip3(x: Vec<i64>, y: Vec<i64>, z: Vec<i64>) -> (r: Result<Vec<Pt3>, GrError>)
    ensures
        r is Ok <==> (x@.len() == y@.len() && x@.len() == z@.len()),
        r is Err ==> r == Result::<Vec<Pt3>, GrError>::Err(GrError::MalformedInput),
        r is Ok ==> ({
            let v = r->Ok_0;
            &&& v@.len() == x@.len()
            &&& forall|i: int|
                0 <= i < v@.len() ==> #[trigger] v@[i] == (Pt3 {
                    x: x@[i],
                    y: y@[i],
                    z: z@[i],
                })
        }),
{
    if x.len() != y.len() || x.len() != z.len() {
        return Err(GrError::MalformedInput);
    }
    let mut v: Vec<Pt3> = Vec::new();
    let mut i: usize = 0;
    while i < x.len()
        invariant
            i <= x@.len(),
            x@.len() == y@.len() && x@.len() == z@.len(),
            v@.len() == i,
            forall|t: int|
                0 <= t < i ==> #[trigger] v@[t] == (Pt3 { x: x@[t], y: y@[t], z: z@[t] }),
        decreases x@.len() - i,
    {
        v.push(Pt3 { x: x[i], y: y[i], z: z[i] });
        i += 1;
    }
    Ok(v)
}

/// The number of records the head training split takes: the record count
/// scaled by the training fraction num/den, truncated.
pub open spec fn split_point(len: int, num: int, den: int) -> int {
    len * num / den
}

/// Splits the records into a training head and a test tail by the
/// fraction num/den (0 < num/den < 1), without shuffling.
#[verifier::loop_isolation(false)]
pub fn train_test_split(v: Vec<DataRecord>, num: u64, den: u64) -> (r: (
    Vec<DataRecord>,
    Vec<DataRecord>,
))
    requires
        0 < num < den,
        v@.len() * num <= u64::MAX,
    ensures
        ({
            let k = split_point(v@.len() as int, num as int, den as int);
            &&& 0 <= k <= v@.len()
            &&& r.0@.len() == k
            &&& r.1@.len() == v@.len() - k
            &&& forall|i: int| 0 <= i < k ==> rec_eq(#[trigger] r.0@[i], v@[i])
            &&& forall|i: int|
                0 <= i < v@.len() - k ==> rec_eq(#[trigger] r.1@[i], v@[k + i])
        }),
{
    let len = v.len();
    proof {
        let l = len as int;
        let nu = num as int;
        let de = den as int;
        lemma_mul_inequality(nu, de, l);
        assert(l * nu <= l * de) by (nonlinear_arith)
            requires nu * l <= de * l;
        lemma_div_is_ordered(l * nu, l * de, de);
        lemma_div_multiples_vanish(l, de);
        assert(l * de == de * l) by (nonlinear_arith);
        assert(split_point(l, nu, de) <= l);
        assert(l * nu >= 0) by (nonlinear_arith)
            requires l >= 0, nu >= 0;
        vstd::arithmetic::div_mod::lemma_div_pos_is_pos(l * nu, de);
    }
    let k = (((len as u64) * num) / den) as usize;
    let mut head: Vec<DataRecord> = Vec::new();
    let mut i: usize = 0;
    while i < k
        invariant
            i <= k,
            k <= len,
            len == v@.len(),
            head@.len() == i,
            forall|t: int| 0 <= t < i ==> rec_eq(#[trigger] head@[t], v@[t]),
        decreases k - i,
    {
        head.push(clone_record(&v[i]));
        i += 1;
    }
    let mut tail: Vec<DataRecord> = Vec::new();
    let mut j: usize = k;
    while j < len
        invariant
            k <= j <= len,
            len == v@.len(),
            tail@.len() == j - k,
            forall|t: int| 0 <= t < j - k ==> rec_eq(#[trigger] tail@[t], v@[k + t]),
        decreases len - j,
    {
        tail.push(clone_record(&v[j]));
        j += 1;
    }
    (head, tail)
}

} // verus!

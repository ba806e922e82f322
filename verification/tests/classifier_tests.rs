use gesture_dtw::gr_model::DataRecord;
use gesture_dtw::gr_model::GRModel;
use gesture_dtw::gr_model::train_test_split;
use gesture_dtw::gr_model::zip3;
use gesture_dtw::point::Pt3;
use gesture_dtw::GrError;

fn pt(x: i64, y: i64, z: i64) -> Pt3 {
    Pt3 { x, y, z }
}

fn flat(v: i64, len: usize) -> Vec<Pt3> {
    vec![pt(v, v, v); len]
}

fn rec(id: u32, gesture: u32, sequence: Vec<Pt3>) -> DataRecord {
    DataRecord { id, gesture, sequence }
}

#[test]
fn classifier_picks_nearest_template() {
    let train = vec![rec(1, 1, flat(0, 5)), rec(2, 2, flat(5, 5))];
    let query = vec![pt(0, 0, 0), pt(1, 0, 0), pt(0, 0, 1), pt(0, 0, 0), pt(0, 1, 0)];
    let mut model = GRModel::new(train, vec![]);
    model.train();
    let (label, cost) = model.classify(&query).unwrap();
    assert_eq!(label, 1);
    assert!(cost < 5 * 75);
}

#[test]
fn accuracy_is_one_when_every_record_matches_its_template() {
    let train = vec![rec(1, 1, flat(0, 4)), rec(2, 2, flat(5, 4))];
    let test_set = vec![
        rec(3, 1, flat(0, 4)),
        rec(4, 2, flat(5, 6)),
        rec(5, 1, vec![pt(0, 0, 0), pt(1, 1, 1), pt(0, 0, 0), pt(0, 0, 0)]),
        rec(6, 2, vec![pt(5, 5, 5), pt(4, 4, 4), pt(5, 5, 5), pt(5, 5, 5)]),
    ];
    let mut model = GRModel::new(train, test_set);
    model.train();
    let (correct, total) = model.test().unwrap();
    assert_eq!(total, 4);
    assert_eq!(correct, 4);
    let accuracy = correct as f64 / total as f64;
    assert_eq!(accuracy, 1.0);
}

#[test]
fn classification_without_templates_is_reported() {
    let model = GRModel::new(vec![], vec![rec(1, 1, flat(0, 3))]);
    assert_eq!(model.classify(&flat(0, 3)).unwrap_err(), GrError::NoTemplates);
    assert_eq!(model.test().unwrap_err(), GrError::NoTemplates);
}

#[test]
fn testing_an_empty_test_set_counts_nothing() {
    let model = GRModel::new(vec![], vec![]);
    assert_eq!(model.test().unwrap(), (0, 0));
}

#[test]
fn training_overwrites_a_repeated_label() {
    // Last writer wins: the second recording of gesture 7 becomes the
    // template, so a query equal to it costs exactly zero.
    let first = flat(0, 3);
    let second = flat(9, 3);
    let train = vec![rec(1, 7, first), rec(2, 7, second.clone())];
    let mut model = GRModel::new(train, vec![]);
    model.train();
    let (label, cost) = model.classify(&second).unwrap();
    assert_eq!(label, 7);
    assert_eq!(cost, 0);
}

#[test]
fn tie_breaks_choose_the_lowest_label() {
    // Both templates are at the same distance from the query.
    let train = vec![rec(1, 9, flat(2, 3)), rec(2, 4, flat(-2, 3))];
    let mut model = GRModel::new(train, vec![]);
    model.train();
    let (label, _cost) = model.classify(&flat(0, 3)).unwrap();
    assert_eq!(label, 4);
}

#[test]
fn zip3_combines_axes() {
    let v = zip3(vec![1, 2], vec![3, 4], vec![5, 6]).unwrap();
    assert_eq!(v, vec![pt(1, 3, 5), pt(2, 4, 6)]);
}

#[test]
fn zip3_rejects_unequal_axes() {
    assert_eq!(zip3(vec![1, 2], vec![3], vec![5, 6]).unwrap_err(), GrError::MalformedInput);
    assert_eq!(zip3(vec![1], vec![3], vec![5, 6]).unwrap_err(), GrError::MalformedInput);
}

#[test]
fn train_test_split_takes_the_head() {
    let records: Vec<DataRecord> = (0..5).map(|i| rec(i, i, flat(i as i64, 2))).collect();
    let (train, test_set) = train_test_split(records, 4, 5);
    assert_eq!(train.len(), 4);
    assert_eq!(test_set.len(), 1);
    for (i, r) in train.iter().enumerate() {
        assert_eq!(r.id, i as u32);
    }
    assert_eq!(test_set[0].id, 4);
}

#[test]
fn train_test_split_truncates_the_fraction() {
    // 3 records at 1/2 keep floor(1.5) = 1 for training.
    let records: Vec<DataRecord> = (0..3).map(|i| rec(i, i, flat(0, 2))).collect();
    let (train, test_set) = train_test_split(records, 1, 2);
    assert_eq!(train.len(), 1);
    assert_eq!(test_set.len(), 2);
}

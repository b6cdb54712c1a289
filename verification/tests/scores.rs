use voice_gender::scores::{
    best_first, class_label, ranks_below, respond, GenderResponse, NEGATIVE,
};

fn labels() -> Vec<(String, String)> {
    vec![("0".to_string(), "female".to_string()), ("1".to_string(), "male".to_string())]
}

fn bits(scores: &[f32]) -> Vec<u32> {
    scores.iter().map(|v| v.to_bits()).collect()
}

fn named(answer: &GenderResponse) -> Vec<(&str, f32)> {
    answer.scores.iter().map(|s| (s.label.as_str(), f32::from_bits(s.score))).collect()
}

#[test]
fn floats_are_ordered_totally() {
    let floats = [
        f32::NEG_INFINITY, -1.5, -1.0, -f32::MIN_POSITIVE, -0.0, 0.0, f32::MIN_POSITIVE, 0.5, 1.0,
        f32::INFINITY, f32::NAN, -f32::NAN,
    ];
    for a in floats {
        for b in floats {
            let before = ranks_below(a.to_bits(), b.to_bits());
            assert_eq!(before, a.total_cmp(&b) == std::cmp::Ordering::Less, "{a} {b}");
        }
    }
    assert_eq!(NEGATIVE, (-0.0f32).to_bits());
}

#[test]
fn best_class_comes_first() {
    let answer = respond(&labels(), &bits(&[0.02, 0.98]));
    assert_eq!(answer.label, "male");
    assert_eq!(named(&answer), vec![("male", 0.98), ("female", 0.02)]);
    let answer = respond(&labels(), &bits(&[0.98, 0.02]));
    assert_eq!(answer.label, "female");
    assert_eq!(named(&answer), vec![("female", 0.98), ("male", 0.02)]);
}

#[test]
fn equal_scores_keep_their_order() {
    assert_eq!(best_first(&bits(&[0.5, 0.7, 0.5, 0.7, 0.9])), vec![4, 1, 3, 0, 2]);
    let answer = respond(&labels(), &bits(&[0.5, 0.5]));
    assert_eq!(answer.label, "female");
}

#[test]
fn every_class_has_one_place() {
    let mut order = best_first(&bits(&[0.1, -3.0, 7.5, 0.1, 0.0]));
    assert_eq!(order, vec![2, 0, 3, 4, 1]);
    order.sort();
    assert_eq!(order, vec![0, 1, 2, 3, 4]);
}

#[test]
fn zero_stands_above_its_negative() {
    assert_eq!(best_first(&bits(&[-0.0, 0.0])), vec![1, 0]);
}

#[test]
fn classes_without_label_are_numbers() {
    assert_eq!(class_label(&labels(), 1), "male");
    assert_eq!(class_label(&labels(), 2), "2");
    assert_eq!(class_label(&Vec::new(), 10), "10");
    let answer = respond(&labels(), &bits(&[0.1, 0.2, 0.3]));
    assert_eq!(answer.label, "2");
    assert_eq!(named(&answer), vec![("2", 0.3), ("male", 0.2), ("female", 0.1)]);
}

#[test]
fn no_scores_have_no_label() {
    let answer = respond(&labels(), &Vec::new());
    assert_eq!(answer.label, "");
    assert!(answer.scores.is_empty());
}

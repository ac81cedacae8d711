use newbbs::model::{ConvId, ConvKind, Conversation};
use newbbs::ui::switcher::{rank, score, Switcher};
use std::collections::HashMap;

fn board() -> (Vec<Conversation>, HashMap<ConvId, String>) {
    let mut convs = Vec::new();
    let mut labels = HashMap::new();
    for (i, label) in ["#development", "#dev", "#general", "@bob"].into_iter().enumerate() {
        let id = 10 + i as i64;
        let (name, topic) = (String::new(), String::new());
        convs.push(Conversation { id, kind: ConvKind::Channel, name, topic, created_at: 0 });
        labels.insert(id, label.to_string());
    }
    (convs, labels)
}

fn found(query: &str) -> Vec<usize> {
    let (convs, labels) = board();
    let mut switcher = Switcher::new(&convs, &labels);
    switcher.query = query.to_string();
    switcher.refilter(&convs, &labels);
    switcher.matches.iter().map(|m| m.index).collect()
}

#[test]
fn matches_spell_the_query() {
    let (_, positions) = score("#general", "gnl").unwrap();
    assert_eq!(positions, vec![1, 3, 7]);
    assert!(score("#general", "lg").is_none());
    assert!(score("#general", "GEN").is_some());
    assert_eq!(score("#dev", "dev").unwrap(), (10 + 12 + 10 + 8 + 10 + 8 - 1, vec![1, 2, 3]));
}

#[test]
fn an_empty_query_lists_everything() {
    assert_eq!(found(""), vec![0, 1, 2, 3]);
}

/// Shorter labels win ties: "#dev" should beat "#development".
#[test]
fn the_best_match_comes_first() {
    assert_eq!(found("dev"), vec![1, 0]);
    assert_eq!(found("b"), vec![3]);
    assert!(found("zzz").is_empty());
}

#[test]
fn the_selection_stays_on_the_list() {
    let (convs, labels) = board();
    let mut switcher = Switcher::new(&convs, &labels);
    assert_eq!(switcher.selection(), Some(0));
    switcher.up();
    assert_eq!(switcher.selected, 0);
    for _ in 0..9 {
        switcher.down();
    }
    assert_eq!(switcher.selection(), Some(3));
    switcher.query = "dev".to_string();
    switcher.refilter(&convs, &labels);
    assert_eq!(switcher.selection(), Some(0));
    switcher.query = "zzz".to_string();
    switcher.refilter(&convs, &labels);
    assert_eq!(switcher.selection(), None);
}

#[test]
fn capital_letters_are_folded() {
    assert!(score("#ÉCOLE", "école").is_some());
}

#[test]
fn ranks_are_worked_out_from_lowercase() {
    let chars = |s: &str| s.chars().collect::<Vec<_>>();
    let (points, positions) =
        rank(&chars("A-B"), &chars("a-b"), &chars("ab")).unwrap();
    assert_eq!(positions, vec![0, 2]);
    assert_eq!(points, 10 + 12 + (10 + 12 - 1));
    assert!(rank(&chars("A-B"), &chars("a-b"), &chars("B")).is_none());
}

/// A conversation without a label is listed as long as nothing is typed.
#[test]
fn a_conversation_without_a_label() {
    let (convs, mut labels) = board();
    labels.remove(&11);
    let mut switcher = Switcher::new(&convs, &labels);
    assert_eq!(switcher.matches.len(), 4);
    switcher.query = "dev".to_string();
    switcher.refilter(&convs, &labels);
    assert_eq!(switcher.matches.iter().map(|m| m.index).collect::<Vec<_>>(), vec![0]);
}

use burn::dataset::{Dataset, InMemDataset};

fn string_items() -> Vec<String> {
    vec![
        "1 Item".to_string(),
        "2 Items".to_string(),
        "3 Items".to_string(),
        "4 Items".to_string(),
    ]
}

#[test]
pub fn given_in_memory_dataset_when_iterate_should_iterate_though_all_items() {
    let items_original = string_items();
    let dataset = InMemDataset::new(items_original.clone());

    let items: Vec<String> = dataset.iter();

    assert_eq!(items_original, items);
}

#[test]
fn get_past_the_last_item_is_none() {
    let dataset = InMemDataset::new(string_items());
    assert_eq!(dataset.len(), 4);
    assert_eq!(dataset.get(1), Some("2 Items".to_string()));
    assert_eq!(dataset.get(4), None);
    assert_eq!(dataset.get(10), None);
}

#[test]
fn from_dataset_copies_every_item() {
    let source = InMemDataset::new(vec![3i64, 1, 2]);
    let copy = InMemDataset::from_dataset(&source);
    assert_eq!(copy.iter(), vec![3i64, 1, 2]);
    assert_eq!(copy.get(0), Some(3));
}

#[test]
fn empty_dataset_iterates_nothing() {
    let dataset: InMemDataset<String> = InMemDataset::new(Vec::new());
    assert_eq!(dataset.len(), 0);
    assert!(dataset.iter().is_empty());
    assert_eq!(dataset.get(0), None);
}

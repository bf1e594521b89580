use pact_models::message_iterators::{InteractionType, MessageIterator, MessageMetadataIterator, ProviderStateIterator};

#[test]
fn message_iterator_hands_out_the_asynchronous_messages_in_order() {
  let interactions = vec![
    (InteractionType::AsynchronousMessages, "m1"),
    (InteractionType::SynchronousHttp, "h1"),
    (InteractionType::AsynchronousMessages, "m2"),
    (InteractionType::SynchronousMessages, "s1"),
    (InteractionType::AsynchronousMessages, "m3")
  ];
  let mut iter = MessageIterator::new(interactions);
  assert_eq!(iter.next(), Some("m1"));
  assert_eq!(iter.next(), Some("m2"));
  assert_eq!(iter.next(), Some("m3"));
  assert_eq!(iter.next(), None);
  assert_eq!(iter.next(), None);
}

#[test]
fn message_iterator_over_a_pact_without_messages_is_empty() {
  let mut iter = MessageIterator::new(vec![(InteractionType::SynchronousHttp, 1)]);
  assert_eq!(iter.next(), None);
  assert!(iter.get_output_dir().is_none());
  iter.set_output_dir("out".to_string());
  assert_eq!(iter.get_output_dir(), Some(&"out".to_string()));
}

#[test]
fn provider_state_iterator_counts_up_from_zero() {
  let mut iter = ProviderStateIterator::new(vec!["a", "b"]);
  assert_eq!(iter.next(), 0);
  assert_eq!(iter.next(), 1);
  assert_eq!(iter.next(), 2);
}

#[test]
fn provider_state_iterator_hands_out_the_states_then_none() {
  let mut iter = ProviderStateIterator::new(vec!["a", "b"]);
  assert_eq!(iter.next_state(), Some(&"a"));
  assert_eq!(iter.next_state(), Some(&"b"));
  assert_eq!(iter.next_state(), None);
  assert_eq!(iter.next_state(), None);
}

#[test]
fn metadata_keys_are_handed_out_in_ascending_order() {
  let keys = vec!["contentType".to_string(), "b".to_string(), "a".to_string(), "Z".to_string()];
  let mut iter = MessageMetadataIterator::new_from_contents(&keys);
  assert_eq!(iter.next(), Some(&"Z".to_string()));
  assert_eq!(iter.next(), Some(&"a".to_string()));
  assert_eq!(iter.next(), Some(&"b".to_string()));
  assert_eq!(iter.next(), Some(&"contentType".to_string()));
  assert_eq!(iter.next(), None);
}

#[test]
fn message_pact_goes_to_the_given_directory_else_the_environment_else_the_default() {
  let mut iter = MessageIterator::new(vec![(InteractionType::AsynchronousMessages, 1)]);
  assert_eq!(iter.pact_output_dir(None), "target/pacts");
  assert_eq!(iter.pact_output_dir(Some("env")), "env");
  iter.set_output_dir("".to_string());
  assert_eq!(iter.pact_output_dir(Some("env")), "");
  iter.set_output_dir("out".to_string());
  assert_eq!(iter.pact_output_dir(Some("env")), "out");
}

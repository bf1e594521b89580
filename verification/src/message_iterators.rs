//! Iterators handed out over the parts of a pact: the asynchronous messages of
//! a pact, and the provider states of an interaction.
use vstd::prelude::*;

use std::collections::VecDeque;

use crate::json_laws::lemma_chars_less_total;
use crate::xml_model::{chars_less, insert_name, insert_name_from, names_seq};

verus! {

/// The kinds of interaction a V4 pact holds.
#[derive(Clone, Copy, PartialEq, Eq, Structural, Debug)]
pub enum InteractionType {
    SynchronousHttp,
    AsynchronousMessages,
    SynchronousMessages,
}

/// The items of the asynchronous message interactions, in order.
pub open spec fn asynchronous_messages<M>(interactions: Seq<(InteractionType, M)>) -> Seq<M>
    decreases interactions.len(),
{
    if interactions.len() == 0 {
        Seq::empty()
    } else {
        let rest = asynchronous_messages(interactions.drop_first());
        if interactions[0].0 == InteractionType::AsynchronousMessages {
            seq![interactions[0].1] + rest
        } else {
            rest
        }
    }
}

/// Whether an interaction is an asynchronous message.
pub open spec fn is_asynchronous<M>(interaction: (InteractionType, M)) -> bool {
    interaction.0 == InteractionType::AsynchronousMessages
}

/// The messages an iterator hands out, one per call of `next` and then
/// `None`, are exactly the items of the asynchronous message interactions, in
/// the order of the interactions: interactions of the other kinds are skipped.
pub proof fn law_iterator_hands_out_the_asynchronous_messages_in_order<M>(interactions: Seq<(InteractionType, M)>)
    ensures
        asynchronous_messages(interactions) == interactions.filter(
            |i: (InteractionType, M)| is_asynchronous(i),
        ).map_values(|i: (InteractionType, M)| i.1),
    decreases interactions.len(),
{
    let pred = |i: (InteractionType, M)| is_asynchronous(i);
    if interactions.len() == 0 {
        reveal_with_fuel(Seq::filter, 1);
        assert(interactions.filter(pred) =~= Seq::<(InteractionType, M)>::empty());
    } else {
        let first = seq![interactions[0]];
        let rest = interactions.drop_first();
        law_iterator_hands_out_the_asynchronous_messages_in_order(rest);
        assert(interactions =~= first + rest);
        Seq::filter_distributes_over_add(first, rest, pred);
        reveal_with_fuel(Seq::filter, 2);
        assert(first.drop_last() =~= Seq::<(InteractionType, M)>::empty());
        if is_asynchronous(interactions[0]) {
            assert(first.filter(pred) =~= first);
        } else {
            assert(first.filter(pred) =~= Seq::<(InteractionType, M)>::empty());
        }
        assert(asynchronous_messages(interactions) =~= interactions.filter(pred).map_values(
            |i: (InteractionType, M)| i.1,
        ));
    }
}

/// Iterator over the asynchronous messages of a pact, in the order of the pact.
pub struct MessageIterator<M> {
    message_list: VecDeque<M>,
    output_dir: Option<String>,
}

impl<M> View for MessageIterator<M> {
    type V = Seq<M>;

    /// The messages not handed out yet.
    closed spec fn view(&self) -> Seq<M> {
        self.message_list@
    }
}

impl<M> MessageIterator<M> {
    /// An iterator over the asynchronous messages among the interactions of a
    /// pact, each interaction given with its kind.
    pub fn new(interactions: Vec<(InteractionType, M)>) -> (r: MessageIterator<M>)
        ensures
            r@ == asynchronous_messages(interactions@),
            r.output_dir() == None::<Seq<char>>,
    {
        let ghost all = interactions@;
        let mut rest = interactions;
        let mut message_list: VecDeque<M> = VecDeque::new();
        assert(all.subrange(all.len() as int, all.len() as int) =~= Seq::<(InteractionType, M)>::empty());
        while rest.len() > 0
            invariant
                rest@ == all.subrange(0, rest@.len() as int),
                rest@.len() <= all.len(),
                message_list@ == asynchronous_messages(all.subrange(rest@.len() as int, all.len() as int)),
            decreases rest@.len(),
        {
            let ghost k = rest@.len() as int;
            let (kind, message) = rest.pop().unwrap();
            assert(all.subrange(k - 1, all.len() as int).drop_first() =~= all.subrange(k, all.len() as int));
            assert(all.subrange(k - 1, all.len() as int)[0] == (kind, message));
            if kind == InteractionType::AsynchronousMessages {
                message_list.push_front(message);
            }
            assert(rest@ =~= all.subrange(0, rest@.len() as int));
        }
        assert(all.subrange(0, all.len() as int) =~= all);
        MessageIterator { message_list, output_dir: None }
    }

    /// The directory the pact file is to be written to, where one was given.
    pub closed spec fn output_dir(&self) -> Option<Seq<char>> {
        match self.output_dir {
            Some(d) => Some(d@),
            None => None,
        }
    }

    /// Hands out the next message, or `None` when all were handed out.
    pub fn next(&mut self) -> (r: Option<M>)
        ensures
            match r {
                Some(m) => old(self)@.len() > 0 && m == old(self)@[0] && final(self)@ == old(self)@.drop_first(),
                None => old(self)@.len() == 0 && final(self)@ == old(self)@,
            },
            final(self).output_dir() == old(self).output_dir(),
    {
        let r = self.message_list.pop_front();
        proof {
            if r is Some {
                assert(self.message_list@ =~= old(self)@.drop_first());
            }
        }
        r
    }

    /// Sets the directory the pact file is to be written to.
    pub fn set_output_dir(&mut self, dir: String)
        ensures
            final(self)@ == old(self)@,
            final(self).output_dir() == Some(dir@),
    {
        self.output_dir = Some(dir);
    }

    /// The directory the pact file is written to when the iterator is done
    /// with: the one given to it, else the value of the output directory
    /// variable of the environment where that is set, else `target/pacts`.
    pub fn pact_output_dir(&self, env_value: Option<&str>) -> (r: String)
        ensures
            r@ == match self.output_dir() {
                Some(d) => d,
                None => match crate::mock_server::opt_str_view(env_value) {
                    Some(v) => v,
                    None => "target/pacts"@,
                },
            },
    {
        match &self.output_dir {
            Some(d) => d.clone(),
            None => match env_value {
                Some(v) => v.to_owned(),
                None => "target/pacts".to_owned(),
            },
        }
    }

    /// The directory the pact file is to be written to, where one was given.
    pub fn get_output_dir(&self) -> (r: Option<&String>)
        ensures
            match r {
                Some(d) => self.output_dir() == Some(d@),
                None => self.output_dir() == None::<Seq<char>>,
            },
    {
        match &self.output_dir {
            Some(d) => Some(d),
            None => None,
        }
    }
}

/// Iterator over the provider states of an interaction: it hands out their
/// positions one after another, and the states at those positions.
pub struct ProviderStateIterator<S> {
    current: usize,
    states: Vec<S>,
}

impl<S> ProviderStateIterator<S> {
    /// The position handed out next.
    pub closed spec fn position(&self) -> nat {
        self.current as nat
    }

    /// The provider states iterated over.
    pub closed spec fn states(&self) -> Seq<S> {
        self.states@
    }

    /// A new iterator over the given provider states, at the first of them.
    pub fn new(states: Vec<S>) -> (r: Self)
        ensures
            r.position() == 0,
            r.states() == states@,
    {
        ProviderStateIterator { current: 0, states }
    }

    /// Hands out the current position and moves to the next.
    pub fn next(&mut self) -> (idx: usize)
        requires
            old(self).position() < usize::MAX,
        ensures
            idx == old(self).position(),
            final(self).position() == old(self).position() + 1,
            final(self).states() == old(self).states(),
    {
        let idx = self.current;
        self.current = self.current + 1;
        idx
    }

    /// Moves to the next position and hands out the provider state at the
    /// position it was at, or `None` when that is past the end.
    pub fn next_state(&mut self) -> (r: Option<&S>)
        requires
            old(self).position() < usize::MAX,
        ensures
            final(self).position() == old(self).position() + 1,
            final(self).states() == old(self).states(),
            match r {
                Some(s) => old(self).position() < old(self).states().len()
                    && *s == old(self).states()[old(self).position() as int],
                None => old(self).position() >= old(self).states().len(),
            },
    {
        let idx = self.next();
        if idx < self.states.len() {
            Some(&self.states[idx])
        } else {
            None
        }
    }
}

/// The keys in ascending order, each once: each key inserted in turn into
/// the ascending list of those before it.
pub open spec fn sorted_keys(keys: Seq<Seq<char>>) -> Seq<Seq<char>>
    decreases keys.len(),
{
    if keys.len() == 0 {
        Seq::empty()
    } else {
        insert_name(sorted_keys(keys.drop_last()), keys.last())
    }
}

/// Iterator over the keys of the metadata of a message, in ascending order.
pub struct MessageMetadataIterator {
    keys: Vec<String>,
    current: usize,
}

impl MessageMetadataIterator {
    /// The keys iterated over, in the order they are handed out.
    pub closed spec fn keys(&self) -> Seq<Seq<char>> {
        names_seq(self.keys@)
    }

    /// The position of the key handed out next.
    pub closed spec fn position(&self) -> nat {
        self.current as nat
    }

    /// A new iterator over the keys of the metadata of some message contents.
    pub fn new_from_contents(metadata_keys: &Vec<String>) -> (r: Self)
        ensures
            r.keys() == sorted_keys(names_seq(metadata_keys@)),
            r.position() == 0,
    {
        let mut keys: Vec<String> = Vec::new();
        let mut i: usize = 0;
        assert(names_seq(metadata_keys@).take(0) =~= Seq::<Seq<char>>::empty());
        assert(names_seq(keys@) =~= Seq::<Seq<char>>::empty());
        while i < metadata_keys.len()
            invariant
                i <= metadata_keys.len(),
                names_seq(keys@) == sorted_keys(names_seq(metadata_keys@).take(i as int)),
            decreases metadata_keys.len() - i,
        {
            assert(names_seq(metadata_keys@).take(i + 1).drop_last() =~= names_seq(metadata_keys@).take(
                i as int,
            ));
            assert(names_seq(keys@).subrange(0, keys@.len() as int) =~= names_seq(keys@));
            keys = insert_name_from(&keys, 0, &metadata_keys[i]);
            i = i + 1;
        }
        assert(names_seq(metadata_keys@).take(metadata_keys.len() as int) =~= names_seq(metadata_keys@));
        MessageMetadataIterator { keys, current: 0 }
    }

    /// Moves to the next position and hands out the key at the position it
    /// was at, or `None` when that is past the end.
    pub fn next(&mut self) -> (r: Option<&String>)
        requires
            old(self).position() < usize::MAX,
        ensures
            final(self).position() == old(self).position() + 1,
            final(self).keys() == old(self).keys(),
            match r {
                Some(k) => old(self).position() < old(self).keys().len()
                    && k@ == old(self).keys()[old(self).position() as int],
                None => old(self).position() >= old(self).keys().len(),
            },
    {
        let idx = self.current;
        self.current = self.current + 1;
        if idx < self.keys.len() {
            Some(&self.keys[idx])
        } else {
            None
        }
    }
}

/// Whether names are in strictly ascending order.
pub open spec fn names_ascending(s: Seq<Seq<char>>) -> bool {
    forall|i: int| 0 <= i < s.len() - 1 ==> chars_less(#[trigger] s[i], s[i + 1])
}

proof fn lemma_insert_name(names: Seq<Seq<char>>, n: Seq<char>)
    requires
        names_ascending(names),
    ensures
        names_ascending(insert_name(names, n)),
        insert_name(names, n).len() > 0,
        insert_name(names, n)[0] == n || (names.len() > 0 && insert_name(names, n)[0] == names[0]),
        forall|x: Seq<char>| #[trigger] insert_name(names, n).contains(x) <==> (names.contains(x) || x == n),
    decreases names.len(),
{
    let r = insert_name(names, n);
    if names.len() == 0 {
        assert(r =~= seq![n]);
        assert forall|x: Seq<char>| #[trigger] r.contains(x) <==> (names.contains(x) || x == n) by {
            if r.contains(x) {
                assert(r[0] == x);
            }
            if x == n {
                assert(r[0] == n);
            }
        }
    } else if names[0] == n {
        assert forall|x: Seq<char>| #[trigger] r.contains(x) <==> (names.contains(x) || x == n) by {
            if x == n {
                assert(names[0] == x);
            }
        }
    } else if chars_less(n, names[0]) {
        assert forall|i: int| 0 <= i < r.len() - 1 implies chars_less(#[trigger] r[i], r[i + 1]) by {
            if i > 0 {
                assert(r[i] == names[i - 1]);
                assert(r[i + 1] == names[i]);
            }
        }
        assert forall|x: Seq<char>| #[trigger] r.contains(x) <==> (names.contains(x) || x == n) by {
            if r.contains(x) {
                let j = choose|j: int| 0 <= j < r.len() && r[j] == x;
                if j > 0 {
                    assert(names[j - 1] == x);
                }
            }
            if names.contains(x) {
                let j = choose|j: int| 0 <= j < names.len() && names[j] == x;
                assert(r[j + 1] == x);
            }
            if x == n {
                assert(r[0] == x);
            }
        }
    } else {
        lemma_chars_less_total(n, names[0]);
        let rest = names.drop_first();
        assert(names_ascending(rest));
        lemma_insert_name(rest, n);
        let ins = insert_name(rest, n);
        assert(r =~= seq![names[0]] + ins);
        assert forall|i: int| 0 <= i < r.len() - 1 implies chars_less(#[trigger] r[i], r[i + 1]) by {
            if i == 0 {
                if ins[0] != n {
                    assert(ins[0] == rest[0]);
                    assert(rest[0] == names[1]);
                }
            } else {
                assert(r[i] == ins[i - 1]);
                assert(r[i + 1] == ins[i]);
            }
        }
        assert forall|x: Seq<char>| #[trigger] r.contains(x) <==> (names.contains(x) || x == n) by {
            if r.contains(x) {
                let j = choose|j: int| 0 <= j < r.len() && r[j] == x;
                if j > 0 {
                    assert(ins[j - 1] == x);
                    assert(ins.contains(x));
                    if rest.contains(x) {
                        let k = choose|k: int| 0 <= k < rest.len() && rest[k] == x;
                        assert(names[k + 1] == x);
                    }
                } else {
                    assert(names[0] == x);
                }
            }
            if names.contains(x) {
                let j = choose|j: int| 0 <= j < names.len() && names[j] == x;
                if j == 0 {
                    assert(r[0] == x);
                } else {
                    assert(rest[j - 1] == x);
                    assert(ins.contains(x));
                    let k = choose|k: int| 0 <= k < ins.len() && ins[k] == x;
                    assert(r[k + 1] == x);
                }
            }
            if x == n {
                assert(ins.contains(x));
                let k = choose|k: int| 0 <= k < ins.len() && ins[k] == x;
                assert(r[k + 1] == x);
            }
        }
    }
}

/// The metadata keys are handed out in strictly ascending order, each key of
/// the metadata exactly once: the sorted keys are ascending (so hold no key
/// twice) and hold exactly the keys of the metadata.
pub proof fn law_metadata_keys_ascending_each_once(keys: Seq<Seq<char>>)
    ensures
        names_ascending(sorted_keys(keys)),
        forall|x: Seq<char>| #[trigger] sorted_keys(keys).contains(x) <==> keys.contains(x),
    decreases keys.len(),
{
    if keys.len() > 0 {
        law_metadata_keys_ascending_each_once(keys.drop_last());
        lemma_insert_name(sorted_keys(keys.drop_last()), keys.last());
        assert forall|x: Seq<char>| #[trigger] sorted_keys(keys).contains(x) <==> keys.contains(x) by {
            if keys.drop_last().contains(x) {
                let j = choose|j: int| 0 <= j < keys.drop_last().len() && keys.drop_last()[j] == x;
                assert(keys[j] == x);
            }
            if keys.contains(x) {
                let j = choose|j: int| 0 <= j < keys.len() && keys[j] == x;
                if j < keys.len() - 1 {
                    assert(keys.drop_last()[j] == x);
                }
            }
            if x == keys.last() {
                assert(keys[keys.len() - 1] == x);
            }
        }
    }
}

} // verus!

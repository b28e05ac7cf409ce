//! Padding of messages to a block size, so that their length tells less
//! about their content.

use vstd::prelude::*;

verus! {

/// How many spaces bring a message of `len` bytes up to a multiple of
/// `block_size`.
pub open spec fn padding(len: nat, block_size: nat) -> nat
    recommends
        block_size > 0,
{
    if len % block_size == 0 {
        0
    } else {
        (block_size - len % block_size) as nat
    }
}

/// `count` spaces.
pub open spec fn spaces(count: nat) -> Seq<u8> {
    Seq::new(count, |i: int| 0x20u8)
}

/// A padded length is a multiple of the block size, and the padding is
/// shorter than one block.
pub proof fn lemma_padded_is_multiple(len: nat, block_size: nat)
    requires
        block_size > 0,
    ensures
        (len + padding(len, block_size)) % block_size == 0,
        padding(len, block_size) < block_size,
{
    let surplus = len % block_size;
    if surplus != 0 {
        assert((len + (block_size - surplus)) % (block_size as int) == 0) by (nonlinear_arith)
            requires
                block_size > 0,
                surplus == len % block_size,
        ;
    }
}

/// Pads `message` with spaces at its end, up to the next multiple of
/// `block_size`, and hands it back. A message whose length is such a
/// multiple is left alone.
pub fn space_pad(message: &mut Vec<u8>, block_size: usize) -> (padded: &mut Vec<u8>)
    requires
        block_size > 0,
    ensures
        padded@ == old(message)@ + spaces(padding(old(message)@.len(), block_size as nat)),
        padded@.len() % (block_size as nat) == 0,
        *final(message) == *final(padded),
{
    let len = message.len();
    let surplus = len % block_size;
    proof {
        lemma_padded_is_multiple(len as nat, block_size as nat);
    }
    if surplus == 0 {
        assert(message@ =~= old(message)@ + spaces(0));
        return message;
    }
    let missing = block_size - surplus;
    let mut added: usize = 0;
    while added < missing
        invariant
            added <= missing,
            message@ == old(message)@ + spaces(added as nat),
        decreases missing - added,
    {
        message.push(0x20u8);
        added += 1;
        assert(message@ =~= old(message)@ + spaces(added as nat));
    }
    message
}

/// `message` with the spaces that `space_pad` adds to it.
pub open spec fn padded(message: Seq<u8>, block_size: nat) -> Seq<u8>
    recommends
        block_size > 0,
{
    message + spaces(padding(message.len(), block_size))
}

/// The block size that messages to other contracts are padded to: the one
/// asked for, or one where none was asked for, which pads nothing.
pub fn message_block_size(block_size: usize) -> (size: usize)
    ensures
        size > 0,
        size == if block_size == 0 {
            1
        } else {
            block_size
        },
{
    if block_size == 0 {
        1
    } else {
        block_size
    }
}

/// A padded copy of `message`.
pub fn padded_copy(message: &[u8], block_size: usize) -> (copy: Vec<u8>)
    requires
        block_size > 0,
    ensures
        copy@ == padded(message@, block_size as nat),
{
    let mut copy: Vec<u8> = Vec::new();
    let mut i: usize = 0;
    while i < message.len()
        invariant
            i <= message@.len(),
            copy@ == message@.subrange(0, i as int),
        decreases message@.len() - i,
    {
        copy.push(message[i]);
        i += 1;
        assert(copy@ =~= message@.subrange(0, i as int));
    }
    assert(copy@ =~= message@);
    space_pad(&mut copy, block_size);
    copy
}

/// What a contract answers to a request, as plain values: the data it
/// returns, if any, and the attributes it logs, each a key and a value.
pub struct Answer {
    pub data: Option<Vec<u8>>,
    pub attributes: Vec<(Vec<u8>, Vec<u8>)>,
}

impl Answer {
    /// True when the answer holds something to pad: data or an attribute.
    pub open spec fn has_content(self) -> bool {
        self.data is Some || self.attributes@.len() > 0
    }

    /// True when `self` is `other` with its data, and the key and the value
    /// of each of its attributes, padded to `block_size`.
    pub open spec fn is_padded(self, other: Answer, block_size: nat) -> bool {
        &&& match other.data {
            Some(data) => self.data matches Some(mine) && mine@ == padded(data@, block_size),
            None => self.data is None,
        }
        &&& self.attributes@.len() == other.attributes@.len()
        &&& forall|i: int|
            0 <= i < other.attributes@.len() ==> (#[trigger] self.attributes@[i]).0@ == padded(
                other.attributes@[i].0@,
                block_size,
            ) && self.attributes@[i].1@ == padded(other.attributes@[i].1@, block_size)
    }
}

/// Pads the data and the attributes of the answer to a request, where the
/// request succeeded, and hands an error on as it is. A block size is
/// needed only where there is something to pad.
pub fn pad_execute_result<E>(response: Result<Answer, E>, block_size: usize) -> (r: Result<
    Answer,
    E,
>)
    requires
        response matches Ok(answer) && answer.has_content() ==> block_size > 0,
    ensures
        match response {
            Ok(answer) => r matches Ok(mine) && mine.is_padded(answer, block_size as nat),
            Err(e) => r == Err::<Answer, E>(e),
        },
{
    match response {
        Ok(answer) => {
            let data = match &answer.data {
                Some(data) => Some(padded_copy(data.as_slice(), block_size)),
                None => None,
            };
            let mut attributes: Vec<(Vec<u8>, Vec<u8>)> = Vec::new();
            let mut i: usize = 0;
            while i < answer.attributes.len()
                invariant
                    answer.attributes@.len() > 0 ==> block_size > 0,
                    i <= answer.attributes@.len(),
                    attributes@.len() == i,
                    forall|j: int|
                        0 <= j < i ==> (#[trigger] attributes@[j]).0@ == padded(
                            answer.attributes@[j].0@,
                            block_size as nat,
                        ) && attributes@[j].1@ == padded(
                            answer.attributes@[j].1@,
                            block_size as nat,
                        ),
                decreases answer.attributes@.len() - i,
            {
                let key = padded_copy(answer.attributes[i].0.as_slice(), block_size);
                let value = padded_copy(answer.attributes[i].1.as_slice(), block_size);
                attributes.push((key, value));
                i += 1;
            }
            Ok(Answer { data, attributes })
        },
        Err(e) => Err(e),
    }
}

/// Pads the data that a query returned, where it succeeded, and hands an
/// error on as it is. A block size is needed only where there is data.
pub fn pad_query_result<E>(response: Result<Vec<u8>, E>, block_size: usize) -> (r: Result<
    Vec<u8>,
    E,
>)
    requires
        response is Ok ==> block_size > 0,
    ensures
        match response {
            Ok(data) => r matches Ok(mine) && mine@ == padded(data@, block_size as nat),
            Err(e) => r == Err::<Vec<u8>, E>(e),
        },
{
    match response {
        Ok(data) => {
            let mut data = data;
            space_pad(&mut data, block_size);
            Ok(data)
        },
        Err(e) => Err(e),
    }
}

} // verus!

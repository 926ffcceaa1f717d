//! Admission-controlled prompt-prefix KV cache.
//!
//! Entries are created only after the engine observes another queued prompt
//! that shares a sufficiently long prefix, and are evicted least recently used
//! first.
use crate::elements::{self, Elements};
use crate::tensor_math;
use crate::tensors::{self, LayerKvCaches};
use candle_core::Tensor;
use std::collections::VecDeque;
use vstd::prelude::*;

verus! {

/// A cached prefix.
#[derive(Debug)]
pub struct PrefixCacheEntry {
    pub tokens: Vec<u32>,
    pub caches: LayerKvCaches,
    pub bytes: u64,
}

/// Why a prefix could not be copied.
#[derive(Debug)]
pub enum PrefixCacheError {
    CopyFailed(candle_core::Error),
}

/// Cached prefixes, least recently used first.
pub struct PrefixCache {
    pub enabled: bool,
    pub min_tokens: usize,
    pub max_entries: usize,
    pub max_bytes: u64,
    pub used_bytes: u64,
    pub entries: VecDeque<PrefixCacheEntry>,
}

/// `prefix` is the beginning of `text`.
pub open spec fn begins_with(text: Seq<u32>, prefix: Seq<u32>) -> bool {
    prefix.len() <= text.len() && text.take(prefix.len() as int) == prefix
}

/// Bytes of all entries.
pub open spec fn entries_bytes(entries: Seq<PrefixCacheEntry>) -> int
    decreases entries.len(),
{
    if entries.len() == 0 {
        0
    } else {
        entries[0].bytes + entries_bytes(entries.skip(1))
    }
}

/// What is left of `entries`, which count as `used` bytes, once enough of the oldest are gone
/// that one more entry of `bytes` bytes keeps the limits; and the bytes that are left. Byte
/// counts stop at the largest `u64`.
pub open spec fn kept_for(
    entries: Seq<PrefixCacheEntry>,
    used: int,
    max_entries: int,
    max_bytes: int,
    bytes: int,
) -> (Seq<PrefixCacheEntry>, int)
    decreases entries.len(),
{
    if entries.len() == 0 || (entries.len() < max_entries && tensors::capped(used + bytes)
        <= max_bytes) {
        (entries, used)
    } else {
        kept_for(
            entries.skip(1),
            if used >= entries[0].bytes {
                used - entries[0].bytes
            } else {
                0
            },
            max_entries,
            max_bytes,
            bytes,
        )
    }
}

/// The tensor has a third dimension of at least `len`.
pub open spec fn wide(tensor: Tensor, len: int) -> bool {
    tensors::tensor_dims(tensor).len() > 2 && tensors::tensor_dims(tensor)[2] >= len
}

/// The layer has keys and values for at least `len` tokens.
pub open spec fn layer_covers(cache: Option<(Tensor, Tensor)>, len: int) -> bool {
    match cache {
        Some((key, value)) => wide(key, len) && wide(value, len),
        None => false,
    }
}

/// Every layer has keys and values for at least `len` tokens.
pub open spec fn layers_cover(caches: Seq<Option<(Tensor, Tensor)>>, len: int) -> bool {
    forall|i: int| 0 <= i < caches.len() ==> layer_covers(#[trigger] caches[i], len)
}

/// Keys or values of the layer have no dimension that counts tokens.
pub open spec fn layer_malformed(cache: Option<(Tensor, Tensor)>, len: int) -> bool {
    match cache {
        Some((key, value)) => tensors::tensor_dims(key).len() <= 2 || (wide(key, len)
            && tensors::tensor_dims(value).len() <= 2),
        None => false,
    }
}

/// A device takes part in copying the layer.
pub open spec fn layer_off_cpu(cache: Option<(Tensor, Tensor)>) -> bool {
    match cache {
        Some((key, value)) => !tensor_math::on_cpu(key) || !tensor_math::on_cpu(value),
        None => false,
    }
}

/// Copying the layer can fail: it is malformed, or it covers the tokens and a device takes part.
pub open spec fn layer_unsure(cache: Option<(Tensor, Tensor)>, len: int) -> bool {
    layer_malformed(cache, len) || (layer_covers(cache, len) && layer_off_cpu(cache))
}

/// A layer cut to its first `len` tokens, in storage of its own.
pub open spec fn layer_prefix(cache: Option<(Tensor, Tensor)>, len: usize) -> Option<
    (Tensor, Tensor),
> {
    match cache {
        Some((key, value)) => Some(
            (
                tensors::copy_of(tensors::tensor_narrowed(key, 2, 0, len)),
                tensors::copy_of(tensors::tensor_narrowed(value, 2, 0, len)),
            ),
        ),
        None => None,
    }
}

/// All layers cut to their first `len` tokens.
pub open spec fn prefix_copies(caches: Seq<Option<(Tensor, Tensor)>>, len: usize) -> Seq<
    Option<(Tensor, Tensor)>,
> {
    Seq::new(caches.len(), |i: int| layer_prefix(caches[i], len))
}

/// Bytes of the copies of all layers.
pub open spec fn prefix_bytes(caches: Seq<Option<(Tensor, Tensor)>>, len: usize) -> int {
    tensors::capped(
        tensors::caches_bytes(prefix_copies(caches, len), caches.len() as int),
    )
}

/// `after` is `before` after a lookup of `prompt` with this result: the longest cached proper prefix
/// with its keys and values, which becomes the most recently used one; nothing where there is none.
pub open spec fn looked_up(
    before: PrefixCache,
    after: PrefixCache,
    prompt: Seq<u32>,
    result: Option<(usize, LayerKvCaches)>,
) -> bool {
    match result {
        Some((len, caches)) => {
            &&& before.spec_enabled()
            &&& prompt.len() > before.min_tokens
            &&& exists|index: int|
                {
                    &&& #[trigger] before.longest_match(prompt, index)
                    &&& len == before.entries@[index].tokens@.len()
                    &&& caches@ == before.entries@[index].caches@
                    &&& after.entries@ == before.entries@.remove(index).push(before.entries@[index])
                }
        },
        None => {
            &&& !before.spec_enabled() || prompt.len() <= before.min_tokens || forall|index: int|
                !#[trigger] before.matches_at(prompt, index)
            &&& after == before
        },
    }
}

/// `after` is `before` with copies of the caches of a prefix as its most recently used entry, and
/// without as many of the oldest entries as the limits demand.
pub open spec fn inserted(
    before: PrefixCache,
    after: PrefixCache,
    tokens: Seq<u32>,
    model_caches: Seq<Option<(Tensor, Tensor)>>,
) -> bool {
    let bytes = prefix_bytes(model_caches, tokens.len() as usize);
    let (kept, used) = kept_for(
        before.entries@,
        before.used_bytes as int,
        before.max_entries as int,
        before.max_bytes as int,
        bytes,
    );
    &&& before.admits(tokens, model_caches)
    &&& after.entries@.len() == kept.len() + 1
    &&& after.entries@.take(kept.len() as int) == kept
    &&& after.entries@.last().tokens@ == tokens
    &&& after.entries@.last().caches@ == prefix_copies(model_caches, tokens.len() as usize)
    &&& after.entries@.last().bytes == bytes
    &&& after.used_bytes == tensors::capped(used + bytes)
}

proof fn lemma_bytes_nonnegative(entries: Seq<PrefixCacheEntry>)
    ensures
        entries_bytes(entries) >= 0,
    decreases entries.len(),
{
    if entries.len() > 0 {
        lemma_bytes_nonnegative(entries.skip(1));
    }
}

proof fn lemma_bytes_push(entries: Seq<PrefixCacheEntry>, entry: PrefixCacheEntry)
    ensures
        entries_bytes(entries.push(entry)) == entries_bytes(entries) + entry.bytes,
    decreases entries.len(),
{
    reveal_with_fuel(entries_bytes, 2);
    if entries.len() == 0 {
        assert(entries.push(entry).skip(1) =~= Seq::empty());
    } else {
        assert(entries.push(entry)[0] == entries[0]);
        assert(entries.push(entry).skip(1) =~= entries.skip(1).push(entry));
        lemma_bytes_push(entries.skip(1), entry);
    }
}

proof fn lemma_bytes_remove(entries: Seq<PrefixCacheEntry>, index: int)
    requires
        0 <= index < entries.len(),
    ensures
        entries_bytes(entries.remove(index)) == entries_bytes(entries) - entries[index].bytes,
    decreases entries.len(),
{
    if index == 0 {
        assert(entries.remove(0) =~= entries.skip(1));
    } else {
        assert(entries.remove(index).skip(1) =~= entries.skip(1).remove(index - 1));
        lemma_bytes_remove(entries.skip(1), index - 1);
        assert(entries.remove(index)[0] == entries[0]);
    }
}

impl PrefixCache {
    /// Limits hold, and no prefix is cached twice.
    pub open spec fn wf(&self) -> bool {
        &&& self.min_tokens >= 1
        &&& self.max_entries >= 1
        &&& self.entries@.len() <= self.max_entries
        &&& self.max_bytes < u64::MAX ==> self.exact()
        &&& self.used_bytes <= self.max_bytes
        &&& forall|i: int|
            0 <= i < self.entries@.len() ==> (#[trigger] self.entries@[i]).tokens@.len()
                >= self.min_tokens
        &&& forall|i: int, j: int|
            0 <= i < j < self.entries@.len() ==> (#[trigger] self.entries@[i]).tokens@ != (
            #[trigger] self.entries@[j]).tokens@
    }

    /// The bytes in use are those of the entries.
    pub open spec fn exact(&self) -> bool {
        self.used_bytes == entries_bytes(self.entries@)
    }

    pub open spec fn spec_enabled(&self) -> bool {
        self.enabled && self.max_bytes > 0
    }

    /// The configuration is that of `before`.
    pub open spec fn same_config(&self, before: Self) -> bool {
        &&& self.enabled == before.enabled
        &&& self.min_tokens == before.min_tokens
        &&& self.max_entries == before.max_entries
        &&& self.max_bytes == before.max_bytes
    }

    /// Entry `index` is a proper prefix of `prompt`.
    pub open spec fn matches_at(&self, prompt: Seq<u32>, index: int) -> bool {
        &&& 0 <= index < self.entries@.len()
        &&& self.entries@[index].tokens@.len() < prompt.len()
        &&& begins_with(prompt, self.entries@[index].tokens@)
    }

    /// Entry `index` is the longest proper prefix of `prompt` that is cached.
    pub open spec fn longest_match(&self, prompt: Seq<u32>, index: int) -> bool {
        &&& self.matches_at(prompt, index)
        &&& forall|j: int|
            #[trigger] self.matches_at(prompt, j) ==> self.entries@[j].tokens@.len()
                <= self.entries@[index].tokens@.len()
    }

    /// The prefix may be cached, as far as the prefix itself decides.
    pub open spec fn wants(&self, tokens: Seq<u32>) -> bool {
        &&& self.spec_enabled()
        &&& tokens.len() >= self.min_tokens
        &&& forall|i: int| 0 <= i < self.entries@.len() ==> (#[trigger] self.entries@[i]).tokens@ != tokens
    }

    /// The prefix and its copies may be cached.
    pub open spec fn admits(&self, tokens: Seq<u32>, caches: Seq<Option<(Tensor, Tensor)>>) -> bool {
        let bytes = prefix_bytes(caches, tokens.len() as usize);
        &&& self.wants(tokens)
        &&& layers_cover(caches, tokens.len() as int)
        &&& 0 < bytes <= self.max_bytes
    }

    pub fn new(enabled: bool, min_tokens: usize, max_entries: usize, max_bytes: u64) -> (result:
        Self)
        ensures
            result.wf(),
            result.enabled == enabled,
            result.min_tokens == if min_tokens == 0 {
                1
            } else {
                min_tokens
            },
            result.max_entries == if max_entries == 0 {
                1
            } else {
                max_entries
            },
            result.max_bytes == max_bytes,
            result.used_bytes == 0,
            result.entries@.len() == 0,
            result.exact(),
    {
        PrefixCache {
            enabled,
            min_tokens: if min_tokens == 0 {
                1
            } else {
                min_tokens
            },
            max_entries: if max_entries == 0 {
                1
            } else {
                max_entries
            },
            max_bytes,
            used_bytes: 0,
            entries: VecDeque::new(),
        }
    }

    pub fn enabled(&self) -> (result: bool)
        ensures
            result == self.spec_enabled(),
    {
        self.enabled && self.max_bytes > 0
    }

    pub fn min_tokens(&self) -> (result: usize)
        ensures
            result == self.min_tokens,
    {
        self.min_tokens
    }

    pub fn max_entries(&self) -> (result: usize)
        ensures
            result == self.max_entries,
    {
        self.max_entries
    }

    pub fn max_bytes(&self) -> (result: u64)
        ensures
            result == self.max_bytes,
    {
        self.max_bytes
    }

    pub fn used_bytes(&self) -> (result: u64)
        ensures
            result == self.used_bytes,
    {
        self.used_bytes
    }

    pub fn len(&self) -> (result: usize)
        ensures
            result == self.entries@.len(),
    {
        self.entries.len()
    }

    /// Restores the longest cached proper prefix of `prompt` and makes it the most recently
    /// used. A prompt is never served whole: its last token is always left to compute.
    pub fn lookup(&mut self, prompt: &[u32]) -> (result: Option<(usize, LayerKvCaches)>)
        requires
            old(self).wf(),
        ensures
            final(self).wf(),
            final(self).same_config(*old(self)),
            final(self).used_bytes == old(self).used_bytes,
            old(self).exact() ==> final(self).exact(),
            looked_up(*old(self), *final(self), prompt@, result),
    {
        if !self.enabled() || prompt.len() <= self.min_tokens {
            return None;
        }
        let mut best: Option<usize> = None;
        let mut i: usize = 0;
        while i < self.entries.len()
            invariant
                i <= self.entries@.len(),
                *self == *old(self),
                match best {
                    Some(b) => {
                        &&& b < i
                        &&& self.matches_at(prompt@, b as int)
                        &&& forall|j: int|
                            j < i && #[trigger] self.matches_at(prompt@, j)
                                ==> self.entries@[j].tokens@.len()
                                <= self.entries@[b as int].tokens@.len()
                    },
                    None => forall|j: int| j < i ==> !#[trigger] self.matches_at(prompt@, j),
                },
            decreases self.entries@.len() - i,
        {
            let entry: &PrefixCacheEntry = &self.entries[i];
            if entry.tokens.len() < prompt.len() && starts_with(prompt, entry.tokens.as_slice()) {
                assert(self.matches_at(prompt@, i as int));
                best = match best {
                    Some(b) => {
                        if self.entries[b].tokens.len() <= self.entries[i].tokens.len() {
                            Some(i)
                        } else {
                            Some(b)
                        }
                    },
                    None => Some(i),
                };
            } else {
                assert(!self.matches_at(prompt@, i as int));
            }
            i = i + 1;
        }
        let index: usize = match best {
            Some(b) => b,
            None => {
                assert forall|j: int| !#[trigger] self.matches_at(prompt@, j) by {
                    if j >= i {
                        assert(!(0 <= j < self.entries@.len()));
                    }
                }
                return None;
            },
        };
        assert(old(self).longest_match(prompt@, index as int));
        let ghost before = self.entries@;
        proof {
            lemma_bytes_remove(before, index as int);
        }
        match self.entries.remove(index) {
            Some(entry) => {
                let len: usize = entry.tokens.len();
                let caches = tensors::share_caches(entry.caches.as_slice());
                proof {
                    lemma_bytes_push(self.entries@, entry);
                }
                self.entries.push_back(entry);
                Some((len, caches))
            },
            None => {
                assert(false);
                None
            },
        }
    }

    /// Copies an exact-width prefix out of model-owned growable KV buffers and caches it,
    /// evicting the least recently used entries as the limits demand.
    ///
    /// The copies have storage of their own, so later appends of the model leave them alone.
    pub fn insert(
        &mut self,
        tokens: &[u32],
        model_caches: &[Option<(Tensor, Tensor)>],
    ) -> (result: Result<bool, PrefixCacheError>)
        requires
            old(self).wf(),
        ensures
            final(self).wf(),
            final(self).same_config(*old(self)),
            match result {
                Ok(true) => inserted(*old(self), *final(self), tokens@, model_caches@),
                Ok(false) => {
                    &&& !old(self).admits(tokens@, model_caches@)
                    &&& *final(self) == *old(self)
                },
                Err(_) => {
                    &&& old(self).wants(tokens@)
                    &&& exists|layer: int|
                        {
                            &&& 0 <= layer < model_caches@.len()
                            &&& layer_unsure(#[trigger] model_caches@[layer], tokens@.len() as int)
                            &&& layers_cover(model_caches@.take(layer), tokens@.len() as int)
                        }
                    &&& *final(self) == *old(self)
                },
            },
            !old(self).wants(tokens@) ==> result is Ok,
            old(self).exact() && entries_bytes(old(self).entries@) + prefix_bytes(
                model_caches@,
                tokens@.len() as usize,
            ) <= u64::MAX ==> final(self).exact(),
    {
        if !self.enabled() || tokens.len() < self.min_tokens {
            return Ok(false);
        }
        let mut i: usize = 0;
        while i < self.entries.len()
            invariant
                i <= self.entries@.len(),
                *self == *old(self),
                old(self).wf(),
                forall|j: int| 0 <= j < i ==> (#[trigger] self.entries@[j]).tokens@ != tokens@,
            decreases self.entries@.len() - i,
        {
            if same_tokens(self.entries[i].tokens.as_slice(), tokens) {
                assert(self.entries@[i as int].tokens@ == tokens@);
                return Ok(false);
            }
            i = i + 1;
        }
        assert(self.wants(tokens@));
        let prefix_len: usize = tokens.len();
        let mut caches: LayerKvCaches = Vec::with_capacity(model_caches.len());
        let mut layer: usize = 0;
        while layer < model_caches.len()
            invariant
                layer <= model_caches@.len(),
                *self == *old(self),
                old(self).wf(),
                self.wants(tokens@),
                prefix_len == tokens@.len(),
                layers_cover(model_caches@.take(layer as int), prefix_len as int),
                caches@ =~= prefix_copies(model_caches@, prefix_len).take(layer as int),
            decreases model_caches@.len() - layer,
        {
            match copy_layer(&model_caches[layer], prefix_len) {
                Ok(Some(copy)) => {
                    caches.push(Some(copy));
                    assert forall|j: int| 0 <= j < layer + 1 implies layer_covers(
                        #[trigger] model_caches@.take(layer + 1)[j],
                        prefix_len as int,
                    ) by {
                        if j < layer {
                            assert(model_caches@.take(layer as int)[j] == model_caches@[j]);
                        }
                    }
                },
                Ok(None) => {
                    assert(!layer_covers(model_caches@[layer as int], prefix_len as int));
                    return Ok(false);
                },
                Err(error) => {
                    assert(layer_unsure(model_caches@[layer as int], prefix_len as int));
                    return Err(PrefixCacheError::CopyFailed(error));
                },
            }
            layer = layer + 1;
        }
        assert(model_caches@.take(layer as int) =~= model_caches@);
        assert(caches@ =~= prefix_copies(model_caches@, prefix_len));
        let bytes: u64 = tensors::kv_cache_bytes(caches.as_slice());
        if bytes == 0 || bytes > self.max_bytes {
            return Ok(false);
        }
        self.make_room(bytes);
        let entry = PrefixCacheEntry {
            tokens: vstd::slice::slice_to_vec(tokens),
            caches,
            bytes,
        };
        let ghost kept = self.entries@;
        proof {
            lemma_bytes_push(kept, entry);
        }
        self.entries.push_back(entry);
        self.used_bytes = self.used_bytes.saturating_add(bytes);
        assert(self.entries@.take(kept.len() as int) =~= kept);
        assert(self.wf()) by {
            assert forall|a: int, b: int| 0 <= a < b < self.entries@.len() implies (
            #[trigger] self.entries@[a]).tokens@ != (#[trigger] self.entries@[b]).tokens@ by {
                if b == kept.len() {
                    assert(kept[a].tokens@ != tokens@);
                }
            }
        }
        Ok(true)
    }

    /// Evicts the least recently used entries until one more of `bytes` bytes fits.
    fn make_room(&mut self, bytes: u64)
        requires
            old(self).wf(),
            bytes <= old(self).max_bytes,
        ensures
            final(self).wf(),
            final(self).same_config(*old(self)),
            (final(self).entries@, final(self).used_bytes as int) == kept_for(
                old(self).entries@,
                old(self).used_bytes as int,
                old(self).max_entries as int,
                old(self).max_bytes as int,
                bytes as int,
            ),
            final(self).entries@.len() < final(self).max_entries,
            tensors::capped(final(self).used_bytes + bytes) <= final(self).max_bytes,
            exists|gone: int|
                0 <= gone <= old(self).entries@.len() && final(self).entries@
                    == #[trigger] old(self).entries@.skip(gone),
            old(self).exact() ==> final(self).exact(),
            final(self).used_bytes <= old(self).used_bytes,
    {
        let ghost mut gone: int = 0;
        assert(self.entries@ =~= old(self).entries@.skip(0));
        while self.entries.len() >= self.max_entries || self.used_bytes.saturating_add(bytes)
            > self.max_bytes
            invariant
                self.wf(),
                self.same_config(*old(self)),
                bytes <= self.max_bytes,
                kept_for(
                    old(self).entries@,
                    old(self).used_bytes as int,
                    old(self).max_entries as int,
                    old(self).max_bytes as int,
                    bytes as int,
                ) == kept_for(
                    self.entries@,
                    self.used_bytes as int,
                    self.max_entries as int,
                    self.max_bytes as int,
                    bytes as int,
                ),
                0 <= gone <= old(self).entries@.len(),
                self.entries@ == old(self).entries@.skip(gone),
                old(self).exact() ==> self.exact(),
                self.used_bytes <= old(self).used_bytes,
            decreases self.entries@.len(),
        {
            let ghost before = self.entries@;
            proof {
                lemma_bytes_nonnegative(before);
                if before.len() > 0 {
                    lemma_bytes_nonnegative(before.skip(1));
                }
            }
            match self.entries.pop_front() {
                Some(evicted) => {
                    assert(self.entries@ =~= before.skip(1));
                    assert(before[0] == evicted);
                    self.used_bytes = self.used_bytes.saturating_sub(evicted.bytes);
                    assert forall|a: int, b: int| 0 <= a < b < self.entries@.len() implies (
                    #[trigger] self.entries@[a]).tokens@ != (#[trigger] self.entries@[b]).tokens@ by {
                        assert(before[a + 1].tokens@ != before[b + 1].tokens@);
                    }
                    assert forall|i: int| 0 <= i < self.entries@.len() implies (
                    #[trigger] self.entries@[i]).tokens@.len() >= self.min_tokens by {
                        assert(before[i + 1].tokens@.len() >= self.min_tokens);
                    }
                    proof {
                        gone = gone + 1;
                        assert(before.skip(1) =~= old(self).entries@.skip(gone));
                    }
                },
                None => {
                    assert(false);
                },
            }
        }
    }
}

/// Copies the first `len` tokens of one layer; `None` where the layer has no keys or values for
/// them.
fn copy_layer(cache: &Option<(Tensor, Tensor)>, len: usize) -> (result: Result<
    Option<(Tensor, Tensor)>,
    candle_core::Error,
>)
    ensures
        match result {
            Ok(Some(copy)) => layer_covers(*cache, len as int) && Some(copy) == layer_prefix(
                *cache,
                len,
            ),
            Ok(None) => !layer_covers(*cache, len as int) && !layer_malformed(*cache, len as int),
            Err(_) => layer_unsure(*cache, len as int),
        },
{
    match cache {
        Some((key, value)) => {
            let key_dim: usize = tensor_dim(key)?;
            if key_dim < len {
                return Ok(None);
            }
            let value_dim: usize = tensor_dim(value)?;
            if value_dim < len {
                return Ok(None);
            }
            let key_part = tensors::narrow(key, 2, 0, len)?;
            proof {
                tensors::lemma_span_of_fewer(
                    tensors::tensor_dims(*key),
                    tensors::tensor_dims(key_part),
                );
            }
            let key_copy = tensors::copy(&key_part)?;
            let value_part = tensors::narrow(value, 2, 0, len)?;
            proof {
                tensors::lemma_span_of_fewer(
                    tensors::tensor_dims(*value),
                    tensors::tensor_dims(value_part),
                );
            }
            let value_copy = tensors::copy(&value_part)?;
            Ok(Some((key_copy, value_copy)))
        },
        None => Ok(None),
    }
}

/// Size of the third dimension, which counts tokens.
fn tensor_dim(tensor: &Tensor) -> (result: Result<usize, candle_core::Error>)
    ensures
        match result {
            Ok(size) => tensors::tensor_dims(*tensor).len() > 2 && size == tensors::tensor_dims(
                *tensor,
            )[2],
            Err(_) => tensors::tensor_dims(*tensor).len() <= 2,
        },
{
    tensors::dim(tensor, 2)
}

/// Whether two token lists are the same.
pub fn same_tokens(left: &[u32], right: &[u32]) -> (result: bool)
    ensures
        result == (left@ == right@),
{
    if left.len() != right.len() {
        return false;
    }
    let shared: usize = common_prefix_len(left, right);
    if shared == left.len() {
        assert(left@ =~= right@);
        true
    } else {
        assert(left@[shared as int] != right@[shared as int]);
        false
    }
}

/// Whether `text` begins with `prefix`.
pub fn starts_with(text: &[u32], prefix: &[u32]) -> (result: bool)
    ensures
        result == begins_with(text@, prefix@),
{
    if prefix.len() > text.len() {
        return false;
    }
    let shared: usize = common_prefix_len(text, prefix);
    if shared == prefix.len() {
        assert(text@.take(prefix@.len() as int) =~= prefix@);
        true
    } else {
        assert(text@.take(prefix@.len() as int)[shared as int] != prefix@[shared as int]);
        false
    }
}

/// `len` tokens are common to the beginnings of both lists, and no more.
pub open spec fn is_common_prefix(left: Seq<u32>, right: Seq<u32>, len: int) -> bool {
    &&& 0 <= len <= left.len()
    &&& len <= right.len()
    &&& forall|i: int| #![trigger left[i], right[i]] 0 <= i < len ==> left[i] == right[i]
    &&& len < left.len() && len < right.len() ==> left[len] != right[len]
}

pub fn common_prefix_len(left: &[u32], right: &[u32]) -> (result: usize)
    ensures
        is_common_prefix(left@, right@, result as int),
{
    let mut i: usize = 0;
    while i < left.len() && i < right.len() && left[i] == right[i]
        invariant
            i <= left@.len(),
            i <= right@.len(),
            forall|j: int| #![trigger left@[j], right@[j]] 0 <= j < i ==> left@[j] == right@[j],
        decreases left@.len() - i,
    {
        i = i + 1;
    }
    i
}

/// What was cached is found again: right after `tokens` went in, every longer prompt that
/// begins with them, and with no longer cached prefix, is served from that entry.
pub proof fn law_inserted_prefix_is_found(
    cache: PrefixCache,
    index: int,
    prompt: Seq<u32>,
)
    requires
        cache.wf(),
        0 <= index < cache.entries@.len(),
        begins_with(prompt, cache.entries@[index].tokens@),
        cache.entries@[index].tokens@.len() < prompt.len(),
        forall|j: int|
            0 <= j < cache.entries@.len() && begins_with(prompt, (#[trigger] cache.entries@[j]).tokens@)
                ==> cache.entries@[j].tokens@.len() <= cache.entries@[index].tokens@.len(),
    ensures
        prompt.len() > cache.min_tokens,
        cache.longest_match(prompt, index),
{
    assert(cache.matches_at(prompt, index));
    assert forall|j: int| #[trigger] cache.matches_at(prompt, j) implies cache.entries@[j].tokens@.len()
        <= cache.entries@[index].tokens@.len() by {
        assert(begins_with(prompt, cache.entries@[j].tokens@));
    }
}

/// The longest cached prefix of a prompt is unique.
pub proof fn law_longest_match_is_unique(
    cache: PrefixCache,
    prompt: Seq<u32>,
    a: int,
    b: int,
)
    requires
        cache.wf(),
        cache.longest_match(prompt, a),
        cache.longest_match(prompt, b),
    ensures
        a == b,
{
    assert(cache.matches_at(prompt, a) && cache.matches_at(prompt, b));
    let len = cache.entries@[a].tokens@.len() as int;
    assert(cache.entries@[a].tokens@ == prompt.take(len));
    assert(cache.entries@[b].tokens@ == prompt.take(len));
    if a < b {
        assert(cache.entries@[a].tokens@ != cache.entries@[b].tokens@);
    } else if b < a {
        assert(cache.entries@[b].tokens@ != cache.entries@[a].tokens@);
    }
}

/// However a cache is used, it keeps its limits, and the bytes in use are those of its entries:
/// unless the bytes of all entries together exceed the largest `u64`, which a cache with a limit
/// below that never lets happen.
pub proof fn law_limits_are_kept(cache: PrefixCache)
    requires
        cache.wf(),
        cache.max_bytes < u64::MAX || cache.exact(),
    ensures
        cache.entries@.len() <= cache.max_entries,
        cache.used_bytes == entries_bytes(cache.entries@),
        entries_bytes(cache.entries@) <= cache.max_bytes,
{
}

/// `part` has the first `len` tokens of `whole`: at each of their places what `whole` has there.
pub open spec fn first_tokens(e: Elements, part: Tensor, whole: Tensor, len: int) -> bool {
    let dims = tensors::tensor_dims(part);
    &&& dims.len() == tensors::tensor_dims(whole).len() && dims.len() > 2
    &&& dims[2] == len
    &&& forall|d: int|
        0 <= d < dims.len() && d != 2 ==> #[trigger] dims[d] == tensors::tensor_dims(whole)[d]
    &&& forall|place: Seq<int>|
        elements::within(place, dims) ==> #[trigger] (e.at)(part, place) == (e.at)(whole, place)
}

proof fn lemma_first_tokens(e: Elements, whole: Tensor, len: usize)
    requires
        elements::exact(e),
        wide(whole, len as int),
    ensures
        first_tokens(e, tensors::copy_of(tensors::tensor_narrowed(whole, 2, 0, len)), whole, len as int),
{
    let part = tensors::tensor_narrowed(whole, 2, 0, len);
    let copy = tensors::copy_of(part);
    assert(elements::part_reads(e, whole, 2, 0, len));
    assert(tensors::tensor_dims(copy) == tensors::tensor_dims(part)) by {
        if tensors::has_elements(part) {
            assert(elements::same_elements(e, tensors::tensor_copied(part), part));
        } else {
            assert(elements::all_are(
                e,
                tensor_math::tensor_zeros_like(part),
                tensors::tensor_dims(part),
                0 as real,
            ));
        }
    }
    let dims = tensors::tensor_dims(copy);
    assert forall|place: Seq<int>| elements::within(place, dims) implies #[trigger] (e.at)(
        copy,
        place,
    ) == (e.at)(whole, place) by {
        assert(tensors::has_elements(part)) by {
            assert forall|i: int| 0 <= i < dims.len() implies #[trigger] dims[i] > 0 by {
                assert(0 <= place[i] < dims[i]);
            }
            tensors::lemma_positive_dims(dims);
        }
        assert(elements::same_elements(e, tensors::tensor_copied(part), part));
        assert((e.at)(part, place) == (e.at)(whole, place.update(2, place[2] + 0usize)));
        assert(place.update(2, place[2] + 0usize) =~= place);
    }
}

/// What is cached for a prefix of `n` tokens are the keys and values of the first `n` token places
/// of the model's caches, of every layer, and a later lookup of a prompt that begins with the
/// prefix restores them, unless a longer prefix of the prompt is cached.
pub proof fn law_prefix_is_restored(
    e: Elements,
    before: PrefixCache,
    middle: PrefixCache,
    after: PrefixCache,
    tokens: Seq<u32>,
    rest: Seq<u32>,
    model_caches: Seq<Option<(Tensor, Tensor)>>,
    result: Option<(usize, LayerKvCaches)>,
)
    requires
        elements::exact(e),
        tokens.len() <= usize::MAX,
        before.wf(),
        middle.wf(),
        middle.same_config(before),
        inserted(before, middle, tokens, model_caches),
        rest.len() > 0,
        looked_up(middle, after, tokens + rest, result),
        forall|j: int|
            0 <= j < middle.entries@.len() && (#[trigger] middle.entries@[j]).tokens@.len() < tokens.len()
                + rest.len() && (tokens + rest).take(middle.entries@[j].tokens@.len() as int)
                == middle.entries@[j].tokens@ ==> middle.entries@[j].tokens@.len() <= tokens.len(),
    ensures
        result is Some,
        result->Some_0.0 == tokens.len(),
        result->Some_0.1@.len() == model_caches.len(),
        forall|l: int| #![trigger model_caches[l]]
            0 <= l < model_caches.len() ==> {
                &&& model_caches[l] is Some && result->Some_0.1@[l] is Some
                &&& first_tokens(
                    e,
                    result->Some_0.1@[l]->Some_0.0,
                    model_caches[l]->Some_0.0,
                    tokens.len() as int,
                )
                &&& first_tokens(
                    e,
                    result->Some_0.1@[l]->Some_0.1,
                    model_caches[l]->Some_0.1,
                    tokens.len() as int,
                )
            },
{
    let prompt = tokens + rest;
    let at = middle.entries@.len() - 1;
    assert(middle.entries@[at].tokens@ == tokens);
    assert(prompt.take(tokens.len() as int) =~= tokens);
    assert(middle.matches_at(prompt, at));
    assert(result is Some);
    let (len, caches) = result->Some_0;
    let index = choose|index: int|
        {
            &&& #[trigger] middle.longest_match(prompt, index)
            &&& len == middle.entries@[index].tokens@.len()
            &&& caches@ == middle.entries@[index].caches@
            &&& after.entries@ == middle.entries@.remove(index).push(middle.entries@[index])
        };
    assert(middle.matches_at(prompt, index));
    assert(middle.longest_match(prompt, at)) by {
        assert forall|j: int| #[trigger] middle.matches_at(prompt, j) implies middle.entries@[j].tokens@.len()
            <= middle.entries@[at].tokens@.len() by {}
    }
    law_longest_match_is_unique(middle, prompt, index, at);
    assert forall|l: int| #![trigger model_caches[l]] 0 <= l < model_caches.len() implies {
        &&& model_caches[l] is Some && caches@[l] is Some
        &&& first_tokens(e, caches@[l]->Some_0.0, model_caches[l]->Some_0.0, tokens.len() as int)
        &&& first_tokens(e, caches@[l]->Some_0.1, model_caches[l]->Some_0.1, tokens.len() as int)
    } by {
        assert(layer_covers(model_caches[l], tokens.len() as int));
        let (key, value) = model_caches[l]->Some_0;
        lemma_first_tokens(e, key, tokens.len() as usize);
        lemma_first_tokens(e, value, tokens.len() as usize);
    }
}

/// An insertion lets go of the oldest entries only, and of none that could have stayed: as long as
/// the byte count is exact, one entry more would have been one too many, or too large.
pub proof fn law_only_the_oldest_go(
    before: PrefixCache,
    after: PrefixCache,
    tokens: Seq<u32>,
    model_caches: Seq<Option<(Tensor, Tensor)>>,
    gone: int,
)
    requires
        before.wf(),
        before.exact(),
        inserted(before, after, tokens, model_caches),
        gone == before.entries@.len() + 1 - after.entries@.len(),
    ensures
        0 <= gone <= before.entries@.len(),
        after.entries@.drop_last() == before.entries@.skip(gone),
        after.entries@.last().tokens@ == tokens,
        gone > 0 ==> before.entries@.len() - gone + 2 > before.max_entries || tensors::capped(
            entries_bytes(before.entries@.skip(gone - 1)) + after.entries@.last().bytes,
        ) > before.max_bytes,
{
    let bytes = prefix_bytes(model_caches, tokens.len() as usize);
    lemma_oldest_go(
        before.entries@,
        before.max_entries as int,
        before.max_bytes as int,
        bytes,
    );
    let (kept, used) = kept_for(
        before.entries@,
        before.used_bytes as int,
        before.max_entries as int,
        before.max_bytes as int,
        bytes,
    );
    assert(after.entries@.drop_last() =~= after.entries@.take(kept.len() as int));
    assert(gone == before.entries@.len() - kept.len());
}

proof fn lemma_oldest_go(entries: Seq<PrefixCacheEntry>, max_entries: int, max_bytes: int, bytes: int)
    ensures
        ({
            let (kept, used) = kept_for(
                entries,
                entries_bytes(entries),
                max_entries,
                max_bytes,
                bytes,
            );
            let gone = entries.len() - kept.len();
            &&& 0 <= gone
            &&& kept == entries.skip(gone)
            &&& gone > 0 ==> entries.len() - gone + 2 > max_entries || tensors::capped(
                entries_bytes(entries.skip(gone - 1)) + bytes,
            ) > max_bytes
        }),
    decreases entries.len(),
{
    if entries.len() == 0 || (entries.len() < max_entries && tensors::capped(
        entries_bytes(entries) + bytes,
    ) <= max_bytes) {
        assert(entries.skip(0) =~= entries);
    } else {
        let rest = entries.skip(1);
        lemma_bytes_nonnegative(rest);
        lemma_oldest_go(rest, max_entries, max_bytes, bytes);
        let (kept, used) = kept_for(rest, entries_bytes(rest), max_entries, max_bytes, bytes);
        let gone = rest.len() - kept.len();
        assert(rest.skip(gone) =~= entries.skip(gone + 1));
        if gone > 0 {
            assert(rest.skip(gone - 1) =~= entries.skip(gone));
        } else {
            assert(entries.skip(0) =~= entries);
        }
    }
}

/// A lookup leaves at least one token of the prompt to be computed. What it finds was cached for
/// just the first tokens of the prompt, and no entry covers more of them; the entry is then the
/// last to go. Nothing is found only if no entry fits, or the cache is off or not meant for prompts
/// this short.
pub proof fn law_lookup_finds_the_longest(
    before: PrefixCache,
    after: PrefixCache,
    prompt: Seq<u32>,
    result: Option<(usize, LayerKvCaches)>,
    j: int,
)
    requires
        before.wf(),
        looked_up(before, after, prompt, result),
        0 <= j < before.entries@.len(),
    ensures
        result matches Some((len, caches)) ==> {
            &&& len < prompt.len()
            &&& after.entries@.len() == before.entries@.len()
            &&& after.entries@.last().tokens@ == prompt.take(len as int)
            &&& after.entries@.last().caches@ == caches@
            &&& after.entries@.contains(before.entries@[j])
            &&& before.entries@[j].tokens@.len() < prompt.len() && prompt.take(
                before.entries@[j].tokens@.len() as int,
            ) == before.entries@[j].tokens@ ==> before.entries@[j].tokens@.len() <= len
        },
        result is None && before.spec_enabled() && prompt.len() > before.min_tokens ==> !(
        before.entries@[j].tokens@.len() < prompt.len() && prompt.take(
            before.entries@[j].tokens@.len() as int,
        ) == before.entries@[j].tokens@),
{
    if let Some((len, caches)) = result {
        let index = choose|index: int|
            {
                &&& #[trigger] before.longest_match(prompt, index)
                &&& len == before.entries@[index].tokens@.len()
                &&& caches@ == before.entries@[index].caches@
                &&& after.entries@ == before.entries@.remove(index).push(before.entries@[index])
            };
        assert(before.matches_at(prompt, index));
        let last = after.entries@.len() - 1;
        assert(after.entries@[last] == before.entries@[index]);
        if before.entries@[j].tokens@.len() < prompt.len() && prompt.take(
            before.entries@[j].tokens@.len() as int,
        ) == before.entries@[j].tokens@ {
            assert(before.matches_at(prompt, j));
        }
        if j < index {
            assert(after.entries@[j] == before.entries@[j]);
        } else if j > index {
            assert(after.entries@[j - 1] == before.entries@[j]);
        }
    } else if before.entries@[j].tokens@.len() < prompt.len() && prompt.take(
        before.entries@[j].tokens@.len() as int,
    ) == before.entries@[j].tokens@ {
        assert(before.matches_at(prompt, j));
    }
}

/// What is common to two lists is a beginning of both, and every common beginning is a part of it.
pub proof fn law_common_prefix_is_the_longest(left: Seq<u32>, right: Seq<u32>, len: int, other: int)
    requires
        is_common_prefix(left, right, len),
        0 <= other <= left.len(),
        other <= right.len(),
    ensures
        left.take(len) == right.take(len),
        left.take(other) == right.take(other) ==> other <= len,
        left == right ==> len == left.len(),
{
    assert(left.take(len) =~= right.take(len));
    if left.take(other) == right.take(other) && other > len {
        assert(left.take(other)[len] == right.take(other)[len]);
    }
}

} // verus!

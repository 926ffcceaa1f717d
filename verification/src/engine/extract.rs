//! Keys and values of a batch, taken from pages.
use crate::elements::{self, Elements};
use crate::tensor_math;
use crate::tensors::{self, LayerKvCaches, TensorResult};
use candle_core::Tensor;
use vstd::prelude::*;

verus! {

/// Keys and values of a batch, per layer, as `[batch, kv_heads, max_total_len, head_dim]`. The
/// tokens of a row stand at the right end.
#[derive(Debug)]
pub struct BatchedKvExtract {
    /// One pair per layer; `None` where a layer has no data.
    pub per_layer: LayerKvCaches,
    pub max_total_len: usize,
    /// Tokens of each row; `None` for a row that was left out.
    pub per_row_totals: Vec<Option<usize>>,
}

/// The last `total` of `width` token places of one row, in row-major order.
pub open spec fn row_part(batch: Tensor, row: usize, width: usize, total: usize) -> Tensor {
    tensors::tensor_packed(
        tensors::tensor_narrowed(
            tensors::tensor_narrowed(batch, 0, row, 1),
            2,
            (width - total) as usize,
            total,
        ),
    )
}

impl BatchedKvExtract {
    /// No row is longer than the batch is wide.
    pub open spec fn wf(&self) -> bool {
        forall|r: int|
            0 <= r < self.per_row_totals@.len() ==> match #[trigger] self.per_row_totals@[r] {
                Some(total) => total <= self.max_total_len,
                None => true,
            }
    }

    /// What layer `layer` holds of row `row`.
    pub open spec fn cell(&self, row: int, layer: int) -> Option<(Tensor, Tensor)> {
        match self.per_row_totals@[row] {
            Some(total) => if total > 0 && layer < self.per_layer@.len() {
                match self.per_layer@[layer] {
                    Some((key, value)) => Some(
                        (
                            row_part(key, row as usize, self.max_total_len, total),
                            row_part(value, row as usize, self.max_total_len, total),
                        ),
                    ),
                    None => None,
                }
            } else {
                None
            },
            None => None,
        }
    }

    /// The caches of row `row`, of the first `layers` layers.
    pub open spec fn row_caches(&self, row: int, layers: int) -> Seq<Option<(Tensor, Tensor)>> {
        Seq::new(layers as nat, |l: int| self.cell(row, l))
    }

    /// What layer `layer` holds of row `row` cannot be taken out without fail: the row is not in
    /// the layer, or a device takes part.
    pub open spec fn cell_unsure(&self, row: int, layer: int) -> bool {
        self.cell(row, layer) is Some && {
            let (key, value) = self.per_layer@[layer]->Some_0;
            ||| !has_row(key, row as usize, self.max_total_len) || !tensor_math::on_cpu(key)
            ||| !has_row(value, row as usize, self.max_total_len) || !tensor_math::on_cpu(value)
        }
    }

    /// Something cannot be taken out without fail.
    pub open spec fn unsure(&self, layers: int) -> bool {
        exists|r: int, l: int|
            0 <= r < self.per_row_totals@.len() && 0 <= l < layers && #[trigger] self.cell_unsure(
                r,
                l,
            )
    }

    /// Takes the caches of each row out of the batch. The device can fail at it, or the tensors
    /// may not have the shape that they should.
    pub fn materialize_per_row(&self, num_layers: usize) -> (result: Result<
        Vec<LayerKvCaches>,
        candle_core::Error,
    >)
        requires
            self.wf(),
        ensures
            match result {
                Ok(rows) => {
                    &&& rows@.len() == self.per_row_totals@.len()
                    &&& forall|r: int|
                        0 <= r < rows@.len() ==> (#[trigger] rows@[r])@ == self.row_caches(
                            r,
                            num_layers as int,
                        )
                },
                Err(_) => self.unsure(num_layers as int),
            },
    {
        let mut rows: Vec<LayerKvCaches> = Vec::new();
        let mut row: usize = 0;
        while row < self.per_row_totals.len()
            invariant
                row <= self.per_row_totals@.len(),
                rows@.len() == row,
                self.wf(),
                forall|r: int|
                    0 <= r < row ==> (#[trigger] rows@[r])@ == self.row_caches(
                        r,
                        num_layers as int,
                    ),
            decreases self.per_row_totals@.len() - row,
        {
            let caches = self.materialize_row(row, num_layers)?;
            rows.push(caches);
            row = row + 1;
        }
        Ok(rows)
    }

    fn materialize_row(&self, row: usize, num_layers: usize) -> (result: Result<
        LayerKvCaches,
        candle_core::Error,
    >)
        requires
            self.wf(),
            row < self.per_row_totals@.len(),
        ensures
            match result {
                Ok(caches) => caches@ == self.row_caches(row as int, num_layers as int),
                Err(_) => self.unsure(num_layers as int),
            },
    {
        let mut caches: LayerKvCaches = Vec::new();
        let mut layer: usize = 0;
        while layer < num_layers
            invariant
                layer <= num_layers,
                row < self.per_row_totals@.len(),
                self.wf(),
                caches@ =~= self.row_caches(row as int, layer as int),
            decreases num_layers - layer,
        {
            let cache = match self.per_row_totals[row] {
                Some(total) => {
                    if total > 0 && layer < self.per_layer.len() {
                        match &self.per_layer[layer] {
                            Some((key, value)) => {
                                assert(self.cell(row as int, layer as int) is Some);
                                assert(!self.cell_unsure(row as int, layer as int)
                                    || self.unsure(num_layers as int));
                                let row_key = take_row(key, row, self.max_total_len, total)?;
                                let row_value = take_row(value, row, self.max_total_len, total)?;
                                Some((row_key, row_value))
                            },
                            None => None,
                        }
                    } else {
                        None
                    }
                },
                None => None,
            };
            caches.push(cache);
            layer = layer + 1;
        }
        Ok(caches)
    }
}

/// The batch has row `row` and `width` token places, of which a row takes the last ones.
pub open spec fn has_row(batch: Tensor, row: usize, width: usize) -> bool {
    let dims = tensors::tensor_dims(batch);
    tensors::part_exists(dims, 0, row as int, 1) && tensors::part_exists(dims, 2, 0, width as int)
}

/// Takes one row out of a batch. A device can fail at it where the row is there, the CPU cannot.
fn take_row(batch: &Tensor, row: usize, width: usize, total: usize) -> (result: TensorResult)
    requires
        total <= width,
    ensures
        match result {
            Ok(part) => {
                &&& has_row(*batch, row, width)
                &&& part == row_part(*batch, row, width, total)
                &&& tensors::tensor_dims(part) == tensors::tensor_dims(*batch).update(
                    0,
                    1,
                ).update(2, total)
            },
            Err(_) => !(has_row(*batch, row, width) && tensor_math::on_cpu(*batch)),
        },
{
    let one = tensors::narrow_one(batch, row)?;
    let tokens = tensors::narrow(&one, 2, width - total, total)?;
    proof {
        tensors::lemma_span_of_fewer(
            tensors::tensor_dims(*batch),
            tensors::tensor_dims(tokens),
        );
    }
    tensors::demand_size(&tokens)?;
    tensors::contiguous(&tokens)
}

/// What is wrong with the caches of one sequence.
#[derive(Debug)]
pub enum KvCacheLenError {
    /// A key cache does not have four dimensions.
    KeyNotFourDims { row: usize, layer: usize },
    /// A value cache does not have four dimensions.
    ValueNotFourDims { row: usize, layer: usize },
    NotSingleSequence { row: usize, layer: usize, key_batch: usize, value_batch: usize },
    KeyValueLenMismatch { row: usize, layer: usize, key_len: usize, value_len: usize },
    InconsistentLen { row: usize, previous: usize, layer: usize, len: usize },
}

/// What is wrong with layer `layer`, where the layers before it have `seen` tokens.
pub open spec fn cache_len_error(
    row: usize,
    layer: usize,
    key: Tensor,
    value: Tensor,
    seen: Option<usize>,
) -> Option<KvCacheLenError> {
    let k = tensors::tensor_dims(key);
    let v = tensors::tensor_dims(value);
    if k.len() != 4 {
        Some(KvCacheLenError::KeyNotFourDims { row, layer })
    } else if v.len() != 4 {
        Some(KvCacheLenError::ValueNotFourDims { row, layer })
    } else if k[0] != 1 || v[0] != 1 {
        Some(
            KvCacheLenError::NotSingleSequence { row, layer, key_batch: k[0], value_batch: v[0] },
        )
    } else if k[2] != v[2] {
        Some(KvCacheLenError::KeyValueLenMismatch { row, layer, key_len: k[2], value_len: v[2] })
    } else {
        match seen {
            Some(previous) => if previous != k[2] {
                Some(KvCacheLenError::InconsistentLen { row, previous, layer, len: k[2] })
            } else {
                None
            },
            None => None,
        }
    }
}

/// Tokens that the first `layers` layers agree on, if any has a cache, or the first error.
pub open spec fn caches_len(
    row: usize,
    caches: Seq<Option<(Tensor, Tensor)>>,
    layers: int,
) -> Result<Option<usize>, KvCacheLenError>
    decreases layers,
{
    if layers <= 0 {
        Ok(None)
    } else {
        match caches_len(row, caches, layers - 1) {
            Err(error) => Err(error),
            Ok(seen) => match caches[layers - 1] {
                None => Ok(seen),
                Some((key, value)) => match cache_len_error(
                    row,
                    (layers - 1) as usize,
                    key,
                    value,
                    seen,
                ) {
                    Some(error) => Err(error),
                    None => Ok(Some(tensors::tensor_dims(key)[2])),
                },
            },
        }
    }
}

proof fn lemma_error_stays(row: usize, caches: Seq<Option<(Tensor, Tensor)>>, few: int, all: int)
    requires
        few <= all,
        caches_len(row, caches, few) is Err,
    ensures
        caches_len(row, caches, all) == caches_len(row, caches, few),
    decreases all - few,
{
    if few < all {
        lemma_error_stays(row, caches, few, all - 1);
    }
}

/// Tokens of a sequence's caches, which every layer has to agree on; 0 where there is none.
pub fn sequence_kv_cache_len(row: usize, caches: &[Option<(Tensor, Tensor)>]) -> (result: Result<
    usize,
    KvCacheLenError,
>)
    ensures
        match result {
            Ok(len) => match caches_len(row, caches@, caches@.len() as int) {
                Ok(Some(agreed)) => len == agreed,
                Ok(None) => len == 0,
                Err(_) => false,
            },
            Err(error) => caches_len(row, caches@, caches@.len() as int) == Err::<
                Option<usize>,
                KvCacheLenError,
            >(error),
        },
{
    let mut seen: Option<usize> = None;
    let mut layer: usize = 0;
    while layer < caches.len()
        invariant
            layer <= caches@.len(),
            caches_len(row, caches@, layer as int) == Ok::<Option<usize>, KvCacheLenError>(seen),
        decreases caches@.len() - layer,
    {
        match &caches[layer] {
            None => {},
            Some((key, value)) => {
                match layer_len(row, layer, key, value, seen) {
                    Ok(len) => {
                        seen = Some(len);
                    },
                    Err(error) => {
                        proof {
                            lemma_error_stays(row, caches@, layer + 1, caches@.len() as int);
                        }
                        return Err(error);
                    },
                }
            },
        }
        layer = layer + 1;
    }
    match seen {
        Some(len) => Ok(len),
        None => Ok(0),
    }
}

fn layer_len(row: usize, layer: usize, key: &Tensor, value: &Tensor, seen: Option<usize>) -> (result:
    Result<usize, KvCacheLenError>)
    ensures
        match result {
            Ok(len) => cache_len_error(row, layer, *key, *value, seen) is None && len
                == tensors::tensor_dims(*key)[2],
            Err(error) => cache_len_error(row, layer, *key, *value, seen) == Some(error),
        },
{
    let k = tensors::dims(key);
    let v = tensors::dims(value);
    if k.len() != 4 {
        return Err(KvCacheLenError::KeyNotFourDims { row, layer });
    }
    if v.len() != 4 {
        return Err(KvCacheLenError::ValueNotFourDims { row, layer });
    }
    if k[0] != 1 || v[0] != 1 {
        return Err(
            KvCacheLenError::NotSingleSequence { row, layer, key_batch: k[0], value_batch: v[0] },
        );
    }
    if k[2] != v[2] {
        return Err(
            KvCacheLenError::KeyValueLenMismatch { row, layer, key_len: k[2], value_len: v[2] },
        );
    }
    match seen {
        Some(previous) => {
            if previous != k[2] {
                return Err(KvCacheLenError::InconsistentLen { row, previous, layer, len: k[2] });
            }
        },
        None => {},
    }
    Ok(k[2])
}

/// The keys or values of one sequence, a batch of one, stand right-aligned in row `row` of a batch
/// that is `width` tokens wide: their last token at the last of these places.
pub open spec fn stands_in(e: Elements, one: Tensor, batch: Tensor, row: int, width: int) -> bool {
    let dims = tensors::tensor_dims(one);
    let all = tensors::tensor_dims(batch);
    &&& all.len() == 4 && dims.len() == 4
    &&& dims[0] == 1 && dims[1] == all[1] && dims[3] == all[3]
    &&& 0 <= row < all[0] && dims[2] <= width <= all[2]
    &&& forall|place: Seq<int>|
        elements::within(place, dims) ==> #[trigger] (e.at)(one, place) == (e.at)(
            batch,
            seq![row, place[1], width - dims[2] + place[2], place[3]],
        )
}

/// What comes out of a row is what was put into it.
proof fn lemma_row_comes_back(
    e: Elements,
    one: Tensor,
    batch: Tensor,
    row: usize,
    width: usize,
    total: usize,
)
    requires
        elements::reads_views(e),
        stands_in(e, one, batch, row as int, width as int),
        tensors::tensor_dims(one)[2] == total,
    ensures
        elements::same_elements(e, row_part(batch, row, width, total), one),
{
    let start = (width - total) as usize;
    let alone = tensors::tensor_narrowed(batch, 0, row, 1);
    let tokens = tensors::tensor_narrowed(alone, 2, start, total);
    let part = row_part(batch, row, width, total);
    let dims = tensors::tensor_dims(one);
    assert(elements::part_reads(e, batch, 0, row, 1));
    assert(elements::part_reads(e, alone, 2, start, total));
    assert(elements::same_elements(e, tensors::tensor_packed(tokens), tokens));
    assert(tensors::tensor_dims(part) =~= dims);
    assert forall|place: Seq<int>|
        elements::within(place, tensors::tensor_dims(part)) implies #[trigger] (e.at)(part, place)
        == (e.at)(one, place) by {
        let inner = place.update(2, place[2] + start);
        assert(place[0] == 0 && place[1] < dims[1] && place[2] < dims[2] && place[3] < dims[3]);
        assert(elements::within(inner, tensors::tensor_dims(alone)));
        assert((e.at)(tokens, place) == (e.at)(alone, inner));
        let outer = inner.update(0, inner[0] + row);
        assert((e.at)(alone, inner) == (e.at)(batch, outer));
        assert(outer =~= seq![row as int, place[1], width - dims[2] + place[2], place[3]]);
    }
}

/// Putting keys and values of a sequence into a batch and taking its row out again gives them
/// back, keys as keys and values as values. A row that was left out, or has no tokens, comes back
/// with nothing.
pub proof fn law_rows_come_back(
    e: Elements,
    extract: BatchedKvExtract,
    rows: Seq<LayerKvCaches>,
    layers: int,
    row: usize,
    layer: int,
    key: Tensor,
    value: Tensor,
)
    requires
        elements::reads_views(e),
        extract.wf(),
        rows.len() == extract.per_row_totals@.len(),
        forall|r: int|
            0 <= r < rows.len() ==> (#[trigger] rows[r])@ == extract.row_caches(r, layers),
        row < rows.len(),
        0 <= layer < layers,
        layer < extract.per_layer@.len(),
    ensures
        rows[row as int]@.len() == layers,
        extract.per_row_totals@[row as int] is None || extract.per_row_totals@[row as int] == Some(
            0usize,
        ) ==> rows[row as int]@[layer] is None,
        match extract.per_layer@[layer] {
            None => rows[row as int]@[layer] is None,
            Some((keys, values)) => ({
                &&& extract.per_row_totals@[row as int] == Some(tensors::tensor_dims(key)[2])
                &&& extract.per_row_totals@[row as int] == Some(tensors::tensor_dims(value)[2])
                &&& tensors::tensor_dims(key)[2] > 0
                &&& stands_in(e, key, keys, row as int, extract.max_total_len as int)
                &&& stands_in(e, value, values, row as int, extract.max_total_len as int)
            }) ==> ({
                let back = rows[row as int]@[layer];
                &&& back is Some
                &&& elements::same_elements(e, back->Some_0.0, key)
                &&& elements::same_elements(e, back->Some_0.1, value)
            }),
        },
{
    assert(rows[row as int]@ == extract.row_caches(row as int, layers));
    match extract.per_layer@[layer] {
        None => {},
        Some((keys, values)) => {
            let width = extract.max_total_len;
            if extract.per_row_totals@[row as int] == Some(tensors::tensor_dims(key)[2])
                && extract.per_row_totals@[row as int] == Some(tensors::tensor_dims(value)[2])
                && stands_in(e, key, keys, row as int, width as int) && stands_in(
                e,
                value,
                values,
                row as int,
                width as int,
            ) {
                let total = tensors::tensor_dims(key)[2];
                lemma_row_comes_back(e, key, keys, row, width, total);
                lemma_row_comes_back(e, value, values, row, width, total);
            }
        },
    }
}

/// A length that is found for a row is that of the keys and of the values of every layer that has
/// any; where no layer has any, none is found.
pub proof fn law_layers_agree_on_the_length(
    row: usize,
    caches: Seq<Option<(Tensor, Tensor)>>,
    layers: int,
    layer: int,
)
    requires
        0 <= layer < layers <= caches.len(),
        caches_len(row, caches, layers) is Ok,
    ensures
        caches[layer] matches Some((key, value)) ==> {
            let len = caches_len(row, caches, layers)->Ok_0;
            &&& len is Some
            &&& tensors::tensor_dims(key).len() == 4 && tensors::tensor_dims(value).len() == 4
            &&& tensors::tensor_dims(key)[0] == 1 && tensors::tensor_dims(value)[0] == 1
            &&& tensors::tensor_dims(key)[2] == len->Some_0
            &&& tensors::tensor_dims(value)[2] == len->Some_0
        },
        (forall|l: int| 0 <= l < layers ==> (#[trigger] caches[l]) is None) ==> caches_len(
            row,
            caches,
            layers,
        ) == Ok::<Option<usize>, KvCacheLenError>(None),
    decreases layers,
{
    if layers > 1 {
        let before = if layer < layers - 1 {
            layer
        } else {
            0
        };
        law_layers_agree_on_the_length(row, caches, layers - 1, before);
    } else {
        assert(caches_len(row, caches, 0) == Ok::<Option<usize>, KvCacheLenError>(None));
    }
    assert(caches[layers - 1] == caches[layers - 1]);
}

} // verus!

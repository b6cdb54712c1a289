//! The sizes and settings of a model.
use candle_core::scalar::Scalar;
use vstd::prelude::*;

verus! {

/// The sizes and settings of a model. The settings that are no whole numbers are carried
/// along as candle's numbers.
pub struct Config {
    pub activation_dropout: Scalar,
    pub attention_dropout: Scalar,
    pub classifier_proj_size: usize,
    pub conv_bias: bool,
    pub conv_dim: Vec<usize>,
    pub conv_kernel: Vec<usize>,
    pub conv_stride: Vec<usize>,
    pub feat_extract_norm: String,
    pub feat_proj_dropout: Scalar,
    pub final_dropout: Scalar,
    pub hidden_dropout: Scalar,
    pub hidden_size: usize,
    pub intermediate_size: usize,
    pub layer_norm_eps: Scalar,
    pub num_attention_heads: usize,
    pub num_conv_pos_embedding_groups: usize,
    pub num_conv_pos_embeddings: usize,
    pub num_hidden_layers: usize,
    /// The label of each class, under the number of the class in decimal.
    pub id2label: Vec<(String, String)>,
}

/// No two entries have the same key.
pub open spec fn distinct_keys(entries: Seq<(String, String)>) -> bool {
    forall|i: int, j: int|
        0 <= i < j < entries.len() ==> (#[trigger] entries[i]).0@ != (#[trigger] entries[j]).0@
}

impl Config {
    /// The number of layers of the feature extractor: as many as all three lists go.
    pub open spec fn conv_layers(&self) -> nat {
        let dims = self.conv_dim@.len();
        let kernels = self.conv_kernel@.len();
        let strides = self.conv_stride@.len();
        if dims <= kernels && dims <= strides {
            dims
        } else if kernels <= strides {
            kernels
        } else {
            strides
        }
    }

    /// The number of channels that layer `i` of the feature extractor takes.
    pub open spec fn channels_into(&self, i: int) -> usize {
        if i == 0 {
            1
        } else {
            self.conv_dim@[i - 1]
        }
    }

    /// Whether layer `i` of the feature extractor is followed by a group norm.
    pub open spec fn normed(&self, i: int) -> bool {
        i == 0 && self.feat_extract_norm@ == "group"@
    }

    /// A model can be built: there is a layer for the projection to follow, and no size is
    /// divided by zero.
    pub open spec fn loadable(&self) -> bool {
        &&& self.conv_dim@.len() >= 1
        &&& self.num_hidden_layers >= 1 ==> self.num_attention_heads >= 1
        &&& self.num_conv_pos_embedding_groups >= 1
    }

    /// No layer of the feature extractor is empty, and every kernel of it moves on.
    pub open spec fn convs_are_usable(&self) -> bool {
        &&& forall|i: int|
            0 <= i < self.conv_layers() ==> (#[trigger] self.conv_dim@[i]) >= 1
        &&& forall|i: int|
            0 <= i < self.conv_layers() ==> (#[trigger] self.conv_kernel@[i]) >= 1
        &&& forall|i: int|
            0 <= i < self.conv_layers() ==> (#[trigger] self.conv_stride@[i]) >= 1
    }

    /// The kernels of the position convolution are not empty, and twice their taps can be
    /// counted.
    pub open spec fn taps_are_usable(&self) -> bool {
        1 <= self.num_conv_pos_embeddings <= usize::MAX / 2
    }

    /// A model can be built and run: no layer is empty, every kernel moves on, and no two
    /// classes have the same number.
    pub open spec fn usable(&self) -> bool {
        &&& self.loadable()
        &&& self.conv_dim@.last() >= 1
        &&& self.convs_are_usable()
        &&& self.hidden_size >= 1
        &&& self.taps_are_usable()
        &&& distinct_keys(self.id2label@)
    }

    /// The layers can follow one another: the last layer of the feature extractor gives as many
    /// channels as the projection takes, the heads and the groups divide the width evenly, no
    /// layer in between is empty, and there is a class to be told.
    pub open spec fn even(&self) -> bool {
        &&& self.channels_into(self.conv_layers() as int) == self.conv_dim@.last()
        &&& self.hidden_size as int % self.num_attention_heads as int == 0
        &&& self.hidden_size as int % self.num_conv_pos_embedding_groups as int == 0
        &&& self.intermediate_size >= 1
        &&& self.classifier_proj_size >= 1
        &&& self.id2label@.len() >= 1
    }

    /// The number of layers of the feature extractor: as many as all three lists go.
    pub fn conv_layer_count(&self) -> (n: usize)
        ensures
            n == self.conv_layers(),
    {
        let dims = self.conv_dim.len();
        let kernels = self.conv_kernel.len();
        let strides = self.conv_stride.len();
        if dims <= kernels && dims <= strides {
            dims
        } else if kernels <= strides {
            kernels
        } else {
            strides
        }
    }

    /// The size of an attention head.
    pub fn head_dim(&self) -> (n: usize)
        requires
            self.num_attention_heads >= 1,
        ensures
            n == self.hidden_size / self.num_attention_heads,
    {
        self.hidden_size / self.num_attention_heads
    }

    /// Whether a model can be built with these settings.
    pub fn is_loadable(&self) -> (b: bool)
        ensures
            b == self.loadable(),
    {
        self.conv_dim.len() >= 1 && (self.num_hidden_layers == 0 || self.num_attention_heads >= 1)
            && self.num_conv_pos_embedding_groups >= 1
    }

    /// Whether a model can be built and run with these settings.
    pub fn is_usable(&self) -> (b: bool)
        ensures
            b == self.usable(),
    {
        if !self.is_loadable() || self.conv_dim[self.conv_dim.len() - 1] == 0 {
            return false;
        }
        let layers = self.conv_layer_count();
        let mut i: usize = 0;
        while i < layers
            invariant
                i <= layers,
                layers == self.conv_layers(),
                forall|j: int| 0 <= j < i ==> (#[trigger] self.conv_dim@[j]) >= 1,
                forall|j: int| 0 <= j < i ==> (#[trigger] self.conv_kernel@[j]) >= 1,
                forall|j: int| 0 <= j < i ==> (#[trigger] self.conv_stride@[j]) >= 1,
            decreases layers - i,
        {
            if self.conv_dim[i] == 0 || self.conv_kernel[i] == 0 || self.conv_stride[i] == 0 {
                return false;
            }
            i = i + 1;
        }
        if self.hidden_size == 0 || self.num_conv_pos_embeddings == 0
            || self.num_conv_pos_embeddings > usize::MAX / 2 {
            return false;
        }
        has_distinct_keys(&self.id2label)
    }
}

/// Whether no two entries have the same key.
fn has_distinct_keys(entries: &Vec<(String, String)>) -> (b: bool)
    ensures
        b == distinct_keys(entries@),
{
    let mut i: usize = 0;
    while i < entries.len()
        invariant
            i <= entries.len(),
            forall|a: int, b: int|
                0 <= a < i && a < b < entries.len() ==> (#[trigger] entries@[a]).0@ != (
                #[trigger] entries@[b]).0@,
        decreases entries.len() - i,
    {
        let mut j: usize = i + 1;
        while j < entries.len()
            invariant
                i < j <= entries.len(),
                forall|b: int| i < b < j ==> entries@[i as int].0@ != (#[trigger] entries@[b]).0@,
            decreases entries.len() - j,
        {
            if entries[i].0 == entries[j].0 {
                return false;
            }
            j = j + 1;
        }
        i = i + 1;
    }
    true
}

/// The feature extractor has as many layers as the shortest of its three lists is long. The first
/// layer takes one channel, and every other one takes what the layer before it gives. Only the
/// first one may be followed by a norm.
pub proof fn lists_make_the_feature_extractor(cfg: Config, i: int)
    ensures
        cfg.conv_layers() <= cfg.conv_dim.len(),
        cfg.conv_layers() <= cfg.conv_kernel.len(),
        cfg.conv_layers() <= cfg.conv_stride.len(),
        cfg.conv_layers() == cfg.conv_dim.len() || cfg.conv_layers() == cfg.conv_kernel.len()
            || cfg.conv_layers() == cfg.conv_stride.len(),
        cfg.channels_into(0) == 1,
        i > 0 ==> cfg.channels_into(i) == cfg.conv_dim@[i - 1],
        cfg.normed(0) <==> cfg.feat_extract_norm@ == "group"@,
        i > 0 ==> !cfg.normed(i),
{
}

/// The settings with which a model can be built: a layer for the projection to follow, and
/// nothing to be divided by zero.
pub proof fn models_are_built_of_what_can_be_divided(cfg: Config)
    ensures
        cfg.loadable() <==> {
            &&& cfg.conv_dim.len() >= 1
            &&& cfg.num_hidden_layers == 0 || cfg.num_attention_heads >= 1
            &&& cfg.num_conv_pos_embedding_groups >= 1
        },
{
}

/// The settings with which a model can be run once it is built: no layer is empty, every kernel
/// moves on, and no two classes have the same number.
pub proof fn models_run_where_nothing_is_empty(cfg: Config)
    requires
        cfg.loadable(),
    ensures
        cfg.usable() <==> {
            &&& cfg.conv_dim@[cfg.conv_dim.len() - 1] >= 1
            &&& forall|i: int|
                0 <= i < cfg.conv_dim.len() && i < cfg.conv_kernel.len() && i
                    < cfg.conv_stride.len() ==> (#[trigger] cfg.conv_dim@[i]) >= 1
                    && cfg.conv_kernel@[i] >= 1 && cfg.conv_stride@[i] >= 1
            &&& cfg.hidden_size >= 1
            &&& cfg.num_conv_pos_embeddings >= 1
            &&& cfg.num_conv_pos_embeddings * 2 <= usize::MAX
            &&& forall|i: int, j: int|
                0 <= i < j < cfg.id2label.len() ==> (#[trigger] cfg.id2label@[i]).0@ != (
                #[trigger] cfg.id2label@[j]).0@
        },
{
    if forall|i: int|
        0 <= i < cfg.conv_dim.len() && i < cfg.conv_kernel.len() && i < cfg.conv_stride.len()
            ==> (#[trigger] cfg.conv_dim@[i]) >= 1 && cfg.conv_kernel@[i] >= 1
            && cfg.conv_stride@[i] >= 1 {
        assert forall|i: int| 0 <= i < cfg.conv_layers() implies (#[trigger] cfg.conv_kernel@[i])
            >= 1 by {
            assert(cfg.conv_dim@[i] >= 1);
        }
        assert forall|i: int| 0 <= i < cfg.conv_layers() implies (#[trigger] cfg.conv_stride@[i])
            >= 1 by {
            assert(cfg.conv_dim@[i] >= 1);
        }
    }
}

/// The settings under which the layers can follow one another: the last of the `n` layers of the
/// feature extractor gives the channels that the projection takes, which is so wherever the three
/// lists are of one length, the heads and the groups divide the width, and no layer in between is
/// empty.
pub proof fn layers_follow_where_sizes_divide(cfg: Config, n: int)
    requires
        cfg.conv_dim.len() >= 1,
        n <= cfg.conv_dim.len() && n <= cfg.conv_kernel.len() && n <= cfg.conv_stride.len(),
        n == cfg.conv_dim.len() || n == cfg.conv_kernel.len() || n == cfg.conv_stride.len(),
    ensures
        cfg.even() <==> {
            &&& cfg.conv_dim@[cfg.conv_dim.len() - 1] == (if n == 0 {
                1
            } else {
                cfg.conv_dim@[n - 1]
            })
            &&& cfg.hidden_size as int % cfg.num_attention_heads as int == 0
            &&& cfg.hidden_size as int % cfg.num_conv_pos_embedding_groups as int == 0
            &&& cfg.intermediate_size >= 1
            &&& cfg.classifier_proj_size >= 1
            &&& cfg.id2label.len() >= 1
        },
{
}

} // verus!

use candle_core::scalar::Scalar;
use voice_gender::config::Config;

fn config() -> Config {
    Config {
        activation_dropout: Scalar::F64(0.1),
        attention_dropout: Scalar::F64(0.1),
        classifier_proj_size: 256,
        conv_bias: false,
        conv_dim: vec![512, 512, 512],
        conv_kernel: vec![10, 3, 2],
        conv_stride: vec![5, 2, 2],
        feat_extract_norm: "group".to_string(),
        feat_proj_dropout: Scalar::F64(0.1),
        final_dropout: Scalar::F64(0.0),
        hidden_dropout: Scalar::F64(0.1),
        hidden_size: 768,
        intermediate_size: 3072,
        layer_norm_eps: Scalar::F64(1e-5),
        num_attention_heads: 12,
        num_conv_pos_embedding_groups: 16,
        num_conv_pos_embeddings: 128,
        num_hidden_layers: 12,
        id2label: vec![
            ("0".to_string(), "female".to_string()),
            ("1".to_string(), "male".to_string()),
        ],
    }
}

#[test]
fn ordinary_settings_are_usable() {
    assert!(config().is_usable());
    assert_eq!(config().head_dim(), 64);
    assert_eq!(config().conv_layer_count(), 3);
}

#[test]
fn layers_go_as_far_as_all_lists() {
    let cfg = Config { conv_kernel: vec![10, 3], ..config() };
    assert_eq!(cfg.conv_layer_count(), 2);
    assert!(cfg.is_usable());
    assert_eq!(Config { conv_stride: vec![5], ..config() }.conv_layer_count(), 1);
    assert_eq!(Config { conv_dim: vec![], ..config() }.conv_layer_count(), 0);
}

#[test]
fn empty_sizes_are_not_usable() {
    assert!(!Config { conv_dim: vec![], ..config() }.is_usable());
    assert!(!Config { conv_dim: vec![512, 0, 512], ..config() }.is_usable());
    assert!(!Config { conv_kernel: vec![10, 0, 2], ..config() }.is_usable());
    assert!(!Config { conv_stride: vec![5, 2, 0], ..config() }.is_usable());
    assert!(!Config { hidden_size: 0, ..config() }.is_usable());
    assert!(!Config { num_attention_heads: 0, ..config() }.is_usable());
    assert!(!Config { num_conv_pos_embedding_groups: 0, ..config() }.is_usable());
    assert!(!Config { num_conv_pos_embeddings: 0, ..config() }.is_usable());
    assert!(!Config { num_conv_pos_embeddings: usize::MAX, ..config() }.is_usable());
}

#[test]
fn settings_without_labels_are_usable() {
    assert!(Config { id2label: vec![], ..config() }.is_usable());
}

#[test]
fn sizes_that_nothing_is_divided_by_do_not_keep_from_loading() {
    assert!(config().is_loadable());
    assert!(Config { conv_kernel: vec![], ..config() }.is_loadable());
    assert!(Config { conv_dim: vec![512, 0, 0], ..config() }.is_loadable());
    assert!(Config { hidden_size: 0, ..config() }.is_loadable());
    assert!(Config { num_conv_pos_embeddings: 0, ..config() }.is_loadable());
    assert!(Config { num_attention_heads: 0, num_hidden_layers: 0, ..config() }.is_loadable());
    assert!(!Config { conv_dim: vec![], ..config() }.is_loadable());
    assert!(!Config { num_attention_heads: 0, ..config() }.is_loadable());
    assert!(!Config { num_conv_pos_embedding_groups: 0, ..config() }.is_loadable());
}

#[test]
fn keys_occur_once() {
    let twice = vec![
        ("0".to_string(), "female".to_string()),
        ("1".to_string(), "male".to_string()),
        ("0".to_string(), "other".to_string()),
    ];
    assert!(!Config { id2label: twice, ..config() }.is_usable());
}

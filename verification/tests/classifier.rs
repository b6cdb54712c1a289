use candle_core::scalar::Scalar;
use candle_core::Device;
use voice_gender::batch::{answer_batch, is_countable, BatchRequest};
use voice_gender::classifier::{
    max_length, pad, row_cells, sample_lengths, ClassifierError, GenderClassifier,
};
use voice_gender::config::Config;
use voice_gender::scores::GenderResponse;

const TOO_SHORT: &str = "audio is too short for Wav2Vec2 feature extraction";

/// A tensor by its name, with its sizes and elements.
struct Entry {
    name: String,
    dims: Vec<usize>,
    values: Vec<f32>,
}

/// Numbers between -1 and 1 that look random.
struct Numbers {
    state: u64,
}

impl Numbers {
    fn next(&mut self) -> f32 {
        self.state = self.state.wrapping_mul(6364136223846793005).wrapping_add(1442695040888963407);
        ((self.state >> 40) as f32) / ((1u64 << 23) as f32) - 1.0
    }

    fn many(&mut self, n: usize) -> Vec<f32> {
        (0..n).map(|_| self.next()).collect()
    }
}

fn config(conv_bias: bool, norm: &str, taps: usize) -> Config {
    Config {
        activation_dropout: Scalar::F64(0.1),
        attention_dropout: Scalar::F64(0.1),
        classifier_proj_size: 3,
        conv_bias,
        conv_dim: vec![4, 6],
        conv_kernel: vec![5, 3],
        conv_stride: vec![3, 2],
        feat_extract_norm: norm.to_string(),
        feat_proj_dropout: Scalar::F64(0.1),
        final_dropout: Scalar::F64(0.0),
        hidden_dropout: Scalar::F64(0.1),
        hidden_size: 8,
        intermediate_size: 6,
        layer_norm_eps: Scalar::F64(1e-5),
        num_attention_heads: 2,
        num_conv_pos_embedding_groups: 2,
        num_conv_pos_embeddings: taps,
        num_hidden_layers: 2,
        id2label: vec![
            ("0".to_string(), "female".to_string()),
            ("1".to_string(), "male".to_string()),
        ],
    }
}

fn entry(entries: &mut Vec<Entry>, numbers: &mut Numbers, name: &str, dims: &[usize]) {
    let values = numbers.many(dims.iter().product());
    entries.push(Entry { name: name.to_string(), dims: dims.to_vec(), values });
}

fn linear_entries(e: &mut Vec<Entry>, n: &mut Numbers, name: &str, from: usize, to: usize) {
    entry(e, n, &format!("{name}.weight"), &[to, from]);
    entry(e, n, &format!("{name}.bias"), &[to]);
}

fn norm_entries(e: &mut Vec<Entry>, n: &mut Numbers, name: &str, size: usize) {
    entry(e, n, &format!("{name}.weight"), &[size]);
    entry(e, n, &format!("{name}.bias"), &[size]);
}

/// All tensors that a model with these settings needs.
fn weights(cfg: &Config) -> Vec<Entry> {
    let mut n = Numbers { state: 7 };
    let mut e = Vec::new();
    let h = cfg.hidden_size;
    let mut channels = 1;
    for i in 0..cfg.conv_dim.len() {
        let name = format!("wav2vec2.feature_extractor.conv_layers.{i}");
        entry(&mut e, &mut n, &format!("{name}.conv.weight"), &[
            cfg.conv_dim[i],
            channels,
            cfg.conv_kernel[i],
        ]);
        if cfg.conv_bias {
            entry(&mut e, &mut n, &format!("{name}.conv.bias"), &[cfg.conv_dim[i]]);
        }
        if i == 0 && cfg.feat_extract_norm == "group" {
            norm_entries(&mut e, &mut n, &format!("{name}.layer_norm"), cfg.conv_dim[i]);
        }
        channels = cfg.conv_dim[i];
    }
    norm_entries(&mut e, &mut n, "wav2vec2.feature_projection.layer_norm", channels);
    linear_entries(&mut e, &mut n, "wav2vec2.feature_projection.projection", channels, h);
    let pos = "wav2vec2.encoder.pos_conv_embed.conv";
    let taps = cfg.num_conv_pos_embeddings;
    entry(&mut e, &mut n, &format!("{pos}.parametrizations.weight.original0"), &[1, 1, taps]);
    entry(&mut e, &mut n, &format!("{pos}.parametrizations.weight.original1"), &[
        h,
        h / cfg.num_conv_pos_embedding_groups,
        taps,
    ]);
    entry(&mut e, &mut n, &format!("{pos}.bias"), &[h]);
    norm_entries(&mut e, &mut n, "wav2vec2.encoder.layer_norm", h);
    for i in 0..cfg.num_hidden_layers {
        let name = format!("wav2vec2.encoder.layers.{i}");
        for part in ["k_proj", "v_proj", "q_proj", "out_proj"] {
            linear_entries(&mut e, &mut n, &format!("{name}.attention.{part}"), h, h);
        }
        norm_entries(&mut e, &mut n, &format!("{name}.layer_norm"), h);
        let inner = cfg.intermediate_size;
        let wide = format!("{name}.feed_forward.intermediate_dense");
        linear_entries(&mut e, &mut n, &wide, h, inner);
        linear_entries(&mut e, &mut n, &format!("{name}.feed_forward.output_dense"), inner, h);
        norm_entries(&mut e, &mut n, &format!("{name}.final_layer_norm"), h);
    }
    linear_entries(&mut e, &mut n, "projector", h, cfg.classifier_proj_size);
    linear_entries(&mut e, &mut n, "classifier", cfg.classifier_proj_size, cfg.id2label.len());
    e
}

/// A file in the safetensors format.
fn safetensors(entries: &[Entry]) -> Vec<u8> {
    let mut header = String::from("{");
    let mut data: Vec<u8> = Vec::new();
    for (i, e) in entries.iter().enumerate() {
        let start = data.len();
        for v in &e.values {
            data.extend_from_slice(&v.to_le_bytes());
        }
        if i > 0 {
            header.push(',');
        }
        header.push_str(&format!(
            "\"{}\":{{\"dtype\":\"F32\",\"shape\":{:?},\"data_offsets\":[{},{}]}}",
            e.name,
            e.dims,
            start,
            data.len()
        ));
    }
    header.push('}');
    while header.len() % 8 != 0 {
        header.push(' ');
    }
    let mut file = (header.len() as u64).to_le_bytes().to_vec();
    file.extend_from_slice(header.as_bytes());
    file.extend_from_slice(&data);
    file
}

fn load(cfg: Config) -> GenderClassifier {
    assert!(cfg.is_usable());
    let file = safetensors(&weights(&cfg));
    match GenderClassifier::load(cfg, file, Device::Cpu) {
        Ok(classifier) => classifier,
        Err(err) => panic!("{}", err.message()),
    }
}

// A plain computation of the model, to compare with.

fn find<'a>(entries: &'a [Entry], name: &str) -> &'a [f32] {
    match entries.iter().find(|e| e.name == name) {
        Some(e) => &e.values,
        None => panic!("no tensor {name}"),
    }
}

fn gelu(v: f64) -> f64 {
    let inner = (2.0 / std::f64::consts::PI).sqrt() * v * (1.0 + 0.044715 * v * v);
    0.5 * v * (1.0 + inner.tanh())
}

fn normed(row: &[f64], e: &[Entry], name: &str) -> Vec<f64> {
    let (w, b) = (find(e, &format!("{name}.weight")), find(e, &format!("{name}.bias")));
    let n = row.len() as f64;
    let mean = row.iter().sum::<f64>() / n;
    let var = row.iter().map(|v| (v - mean) * (v - mean)).sum::<f64>() / n;
    row.iter()
        .enumerate()
        .map(|(i, v)| (v - mean) / (var + 1e-5).sqrt() * w[i] as f64 + b[i] as f64)
        .collect()
}

fn linear(row: &[f64], e: &[Entry], name: &str) -> Vec<f64> {
    let (w, b) = (find(e, &format!("{name}.weight")), find(e, &format!("{name}.bias")));
    b.iter()
        .enumerate()
        .map(|(i, b)| {
            *b as f64
                + row.iter().enumerate().map(|(j, v)| v * w[i * row.len() + j] as f64).sum::<f64>()
        })
        .collect()
}

fn frame_count(cfg: &Config, mut len: usize) -> usize {
    for i in 0..cfg.conv_dim.len() {
        if len < cfg.conv_kernel[i] {
            return 0;
        }
        len = (len - cfg.conv_kernel[i]) / cfg.conv_stride[i] + 1;
    }
    len
}

/// The shares of the classes for one padded row, of which `len` samples are no padding.
fn shares(cfg: &Config, e: &[Entry], row: &[f32], len: usize) -> Vec<f64> {
    let mut chans: Vec<Vec<f64>> = vec![row.iter().map(|v| *v as f64).collect()];
    for i in 0..cfg.conv_dim.len() {
        let name = format!("wav2vec2.feature_extractor.conv_layers.{i}");
        let w = find(e, &format!("{name}.conv.weight"));
        let (k, s) = (cfg.conv_kernel[i], cfg.conv_stride[i]);
        let places = (chans[0].len() - k) / s + 1;
        let mut next = Vec::new();
        for o in 0..cfg.conv_dim[i] {
            let bias = if cfg.conv_bias {
                find(e, &format!("{name}.conv.bias"))[o] as f64
            } else {
                0.0
            };
            let mut out = vec![bias; places];
            for p in 0..places {
                for c in 0..chans.len() {
                    for t in 0..k {
                        out[p] += chans[c][p * s + t] * w[(o * chans.len() + c) * k + t] as f64;
                    }
                }
            }
            if i == 0 && cfg.feat_extract_norm == "group" {
                let mean = out.iter().sum::<f64>() / places as f64;
                let var = out.iter().map(|v| (v - mean) * (v - mean)).sum::<f64>() / places as f64;
                let gain = find(e, &format!("{name}.layer_norm.weight"))[o] as f64;
                let shift = find(e, &format!("{name}.layer_norm.bias"))[o] as f64;
                for v in out.iter_mut() {
                    *v = (*v - mean) / (var + 1e-5).sqrt() * gain + shift;
                }
            }
            next.push(out.into_iter().map(gelu).collect());
        }
        chans = next;
    }
    let frames = chans[0].len();
    let real = frame_count(cfg, len);
    let mut xs: Vec<Vec<f64>> = (0..frames)
        .map(|f| {
            let row: Vec<f64> = chans.iter().map(|c| c[f]).collect();
            let row = normed(&row, e, "wav2vec2.feature_projection.layer_norm");
            linear(&row, e, "wav2vec2.feature_projection.projection")
        })
        .collect();

    let h = cfg.hidden_size;
    let taps = cfg.num_conv_pos_embeddings;
    let (pad, per) = (taps / 2, h / cfg.num_conv_pos_embedding_groups);
    let pos = "wav2vec2.encoder.pos_conv_embed.conv";
    let g = find(e, &format!("{pos}.parametrizations.weight.original0"));
    let v = find(e, &format!("{pos}.parametrizations.weight.original1"));
    let b = find(e, &format!("{pos}.bias"));
    let lengths: Vec<f64> = (0..taps)
        .map(|t| {
            (0..h * per).map(|r| (v[r * taps + t] as f64).powi(2)).sum::<f64>().sqrt()
        })
        .collect();
    let mut placed = xs.clone();
    for f in 0..frames {
        for o in 0..h {
            let first = o / per * per;
            let mut sum = b[o] as f64;
            for c in 0..per {
                for t in 0..taps {
                    let at = (f + t) as i64 - pad as i64;
                    if at >= 0 && (at as usize) < frames {
                        let w = v[(o * per + c) * taps + t] as f64 / lengths[t] * g[t] as f64;
                        sum += w * xs[at as usize][first + c];
                    }
                }
            }
            placed[f][o] += gelu(sum);
        }
    }
    xs = placed.iter().map(|row| normed(row, e, "wav2vec2.encoder.layer_norm")).collect();

    let heads = cfg.num_attention_heads;
    let size = h / heads;
    for i in 0..cfg.num_hidden_layers {
        let name = format!("wav2vec2.encoder.layers.{i}");
        let project = |part: &str| -> Vec<Vec<f64>> {
            xs.iter().map(|row| linear(row, e, &format!("{name}.attention.{part}"))).collect()
        };
        let (q, k, v) = (project("q_proj"), project("k_proj"), project("v_proj"));
        let mut next = Vec::new();
        for f in 0..frames {
            let mut mixed = vec![0.0; h];
            for head in 0..heads {
                let at = head * size;
                let scores: Vec<f64> = (0..frames)
                    .map(|o| {
                        let dot: f64 = (0..size).map(|d| q[f][at + d] * k[o][at + d]).sum();
                        dot / (size as f64).sqrt() + if o < real { 0.0 } else { -1e9 }
                    })
                    .collect();
                let top = scores.iter().cloned().fold(f64::MIN, f64::max);
                let total: f64 = scores.iter().map(|s| (s - top).exp()).sum();
                for (o, score) in scores.iter().enumerate() {
                    for d in 0..size {
                        mixed[at + d] += (score - top).exp() / total * v[o][at + d];
                    }
                }
            }
            let attended = linear(&mixed, e, &format!("{name}.attention.out_proj"));
            let joined: Vec<f64> = attended.iter().zip(&xs[f]).map(|(a, x)| a + x).collect();
            let joined = normed(&joined, e, &format!("{name}.layer_norm"));
            let wide = linear(&joined, e, &format!("{name}.feed_forward.intermediate_dense"));
            let wide: Vec<f64> = wide.into_iter().map(gelu).collect();
            let narrow = linear(&wide, e, &format!("{name}.feed_forward.output_dense"));
            let again: Vec<f64> = narrow.iter().zip(&joined).map(|(a, x)| a + x).collect();
            next.push(normed(&again, e, &format!("{name}.final_layer_norm")));
        }
        xs = next;
    }

    let mean: Vec<f64> =
        (0..h).map(|d| xs[..real].iter().map(|row| row[d]).sum::<f64>() / real as f64).collect();
    let hidden: Vec<f64> = linear(&mean, e, "projector").into_iter().map(f64::tanh).collect();
    let scores = linear(&hidden, e, "classifier");
    let top = scores.iter().cloned().fold(f64::MIN, f64::max);
    let total: f64 = scores.iter().map(|s| (s - top).exp()).sum();
    scores.iter().map(|s| (s - top).exp() / total).collect()
}

fn bits(samples: &[f32]) -> Vec<u32> {
    samples.iter().map(|v| v.to_bits()).collect()
}

fn waveform(seed: u64, len: usize) -> Vec<f32> {
    Numbers { state: seed }.many(len)
}

/// Whether the answers are those of the plain computation.
fn check(cfg: Config, batch: &[Vec<f32>]) {
    let entries = weights(&cfg);
    let longest = batch.iter().map(|row| row.len()).max().unwrap_or(0);
    let expected: Vec<Vec<f64>> = batch
        .iter()
        .map(|row| {
            let mut padded = row.clone();
            padded.resize(longest, 0.0);
            shares(&cfg, &entries, &padded, row.len())
        })
        .collect();
    let labels: Vec<String> = cfg.id2label.iter().map(|(_, label)| label.clone()).collect();
    let classifier = load(cfg);
    let answers = match classifier.predict_batch(batch.iter().map(|row| bits(row)).collect()) {
        Ok(answers) => answers,
        Err(err) => panic!("{}", err.message()),
    };
    assert_eq!(answers.len(), batch.len());
    for (answer, expected) in answers.iter().zip(&expected) {
        assert_eq!(answer.scores.len(), labels.len());
        assert_eq!(answer.label, answer.scores[0].label);
        for score in &answer.scores {
            let class = match labels.iter().position(|label| *label == score.label) {
                Some(class) => class,
                None => panic!("no label {}", score.label),
            };
            let got = f32::from_bits(score.score) as f64;
            assert!((got - expected[class]).abs() < 1e-5, "{} {}", got, expected[class]);
        }
        let (first, second) = (answer.scores[0].score, answer.scores[1].score);
        assert!(f32::from_bits(first) >= f32::from_bits(second));
    }
}

#[test]
fn one_request_is_answered() {
    check(config(true, "group", 4), &[waveform(1, 40)]);
}

#[test]
fn requests_of_different_lengths_are_answered() {
    check(config(true, "group", 4), &[waveform(1, 40), waveform(2, 23), waveform(3, 31)]);
}

#[test]
fn convolutions_may_have_no_bias() {
    check(config(false, "group", 4), &[waveform(4, 40), waveform(5, 20)]);
}

#[test]
fn convolutions_may_have_no_norm() {
    check(config(true, "layer", 3), &[waveform(6, 30), waveform(7, 40)]);
}

#[test]
fn position_kernel_may_have_one_tap() {
    check(config(true, "group", 1), &[waveform(8, 25), waveform(9, 40)]);
}

#[test]
fn shortest_request_has_one_frame() {
    let classifier = load(config(true, "group", 4));
    assert_eq!(classifier.model.feature_output_len(0), 0);
    assert_eq!(classifier.model.feature_output_len(4), 0);
    assert_eq!(classifier.model.feature_output_len(10), 0);
    assert_eq!(classifier.model.feature_output_len(11), 1);
    assert_eq!(classifier.model.feature_output_len(16), 1);
    assert_eq!(classifier.model.feature_output_len(17), 2);
    assert_eq!(classifier.model.feature_output_len(40), 5);
    assert_eq!(classifier.model.feature_lengths(&[11, 4, 40]), vec![1, 0, 5]);
    check(config(true, "group", 4), &[waveform(10, 11)]);
}

#[test]
fn frames_grow_with_samples_and_stay_below() {
    let classifier = load(config(true, "group", 4));
    for len in 0..200 {
        let count = classifier.model.feature_output_len(len);
        assert!(count <= len);
        assert!(count <= classifier.model.feature_output_len(len + 1));
    }
}

#[test]
fn empty_batch_has_no_answers() {
    let classifier = load(config(true, "group", 4));
    match classifier.predict_batch(Vec::new()) {
        Ok(answers) => assert!(answers.is_empty()),
        Err(err) => panic!("{}", err.message()),
    }
}

#[test]
fn short_request_is_refused() {
    let classifier = load(config(true, "group", 4));
    let batch = vec![bits(&waveform(1, 40)), bits(&waveform(2, 10))];
    match classifier.predict_batch(batch) {
        Ok(_) => panic!("answered"),
        Err(err) => {
            assert!(matches!(err, ClassifierError::TooShort));
            assert_eq!(err.message(), TOO_SHORT);
        }
    }
}

#[test]
fn missing_weights_are_reported() {
    let cfg = config(true, "group", 4);
    let mut entries = weights(&cfg);
    entries.retain(|e| e.name != "projector.bias");
    match GenderClassifier::load(cfg, safetensors(&entries), Device::Cpu) {
        Ok(_) => panic!("loaded"),
        Err(err) => {
            assert!(matches!(err, ClassifierError::Model(_)));
            assert!(err.message().contains("projector.bias"));
        }
    }
}

#[test]
fn weights_of_wrong_sizes_are_reported() {
    let cfg = config(true, "group", 4);
    let mut entries = weights(&cfg);
    for e in entries.iter_mut() {
        if e.name == "classifier.weight" {
            e.dims = vec![3, 2];
        }
    }
    assert!(GenderClassifier::load(cfg, safetensors(&entries), Device::Cpu).is_err());
}

#[test]
fn other_files_are_no_weights() {
    let cfg = config(true, "group", 4);
    assert!(GenderClassifier::load(cfg, vec![1, 2, 3], Device::Cpu).is_err());
}

#[test]
fn answers_go_back_to_their_requests() {
    let cfg = config(true, "group", 4);
    let batch = vec![
        BatchRequest { samples: bits(&waveform(1, 40)), response: "first" },
        BatchRequest { samples: bits(&waveform(2, 23)), response: "second" },
    ];
    let classifier = load(cfg);
    assert!(is_countable(&classifier, &batch));
    let expected = match classifier
        .predict_batch(vec![bits(&waveform(1, 40)), bits(&waveform(2, 23))])
    {
        Ok(answers) => answers,
        Err(err) => panic!("{}", err.message()),
    };
    let told = answer_batch(&classifier, batch);
    assert_eq!(told.responses, vec!["first", "second"]);
    assert_eq!(told.replies.len(), 2);
    for (reply, expected) in told.replies.iter().zip(&expected) {
        match reply {
            Ok(answer) => assert_eq!(named(answer), named(expected)),
            Err(message) => panic!("{message}"),
        }
    }
    assert_ne!(named(&expected[0]), named(&expected[1]));
}

fn named(answer: &GenderResponse) -> Vec<(String, u32)> {
    answer.scores.iter().map(|score| (score.label.clone(), score.score)).collect()
}

#[test]
fn short_request_fails_its_whole_batch() {
    let classifier = load(config(true, "group", 4));
    let batch = vec![
        BatchRequest { samples: bits(&waveform(1, 40)), response: 1 },
        BatchRequest { samples: bits(&waveform(2, 3)), response: 2 },
        BatchRequest { samples: bits(&waveform(3, 30)), response: 3 },
    ];
    let told = answer_batch(&classifier, batch);
    assert_eq!(told.responses, vec![1, 2, 3]);
    assert_eq!(told.replies.len(), 3);
    for reply in &told.replies {
        match reply {
            Ok(_) => panic!("answered"),
            Err(message) => assert_eq!(message, TOO_SHORT),
        }
    }
}

#[test]
fn rows_are_padded_with_silence() {
    let samples = vec![vec![1, 2, 3], vec![], vec![4]];
    let lengths = sample_lengths(&samples);
    assert_eq!(lengths, vec![3, 0, 1]);
    assert_eq!(max_length(&lengths), 3);
    assert_eq!(max_length(&Vec::new()), 0);
    let padded = pad(&samples, 3);
    assert_eq!(padded, vec![1, 2, 3, 0, 0, 0, 4, 0, 0]);
    assert_eq!(row_cells(&padded, 3, 0), vec![1, 2, 3]);
    assert_eq!(row_cells(&padded, 3, 2), vec![4, 0, 0]);
}

#[test]
fn heads_that_leave_a_rest_cannot_answer() {
    let cfg = Config { num_attention_heads: 3, ..config(true, "group", 4) };
    let classifier = load(cfg);
    match classifier.predict_batch(vec![bits(&waveform(1, 40))]) {
        Ok(_) => panic!("answered"),
        Err(err) => assert!(matches!(err, ClassifierError::Model(_))),
    }
}

#[test]
fn smallest_sizes_answer() {
    let cfg = Config {
        classifier_proj_size: 1,
        intermediate_size: 1,
        num_attention_heads: 8,
        num_conv_pos_embedding_groups: 8,
        num_hidden_layers: 0,
        ..config(true, "group", 2)
    };
    check(cfg, &[waveform(1, 11), waveform(2, 17)]);
}

#[test]
fn single_group_and_head_answer() {
    let cfg = Config {
        num_attention_heads: 1,
        num_conv_pos_embedding_groups: 1,
        ..config(false, "group", 5)
    };
    check(cfg, &[waveform(3, 40), waveform(4, 12)]);
}

#[test]
fn ordinary_batches_are_countable() {
    let classifier = load(config(true, "group", 4));
    let batch = vec![BatchRequest { samples: bits(&waveform(1, 3)), response: 1 }];
    assert!(is_countable(&classifier, &batch));
    assert!(is_countable(&classifier, &Vec::<BatchRequest<u32>>::new()));
}

#[test]
fn batches_with_too_many_heads_are_not_countable() {
    let cfg = Config { num_attention_heads: usize::MAX, ..config(true, "group", 4) };
    let classifier = load(cfg);
    let request = |len| BatchRequest { samples: bits(&waveform(1, len)), response: len };
    assert!(is_countable(&classifier, &vec![request(11)]));
    assert!(is_countable(&classifier, &vec![request(3), request(4)]));
    assert!(!is_countable(&classifier, &vec![request(17)]));
    assert!(!is_countable(&classifier, &vec![request(11), request(3)]));
}

#[test]
fn more_heads_than_the_width_cannot_answer() {
    let cfg = Config { num_attention_heads: 9, ..config(true, "group", 4) };
    assert_eq!(cfg.head_dim(), 0);
    let classifier = load(cfg);
    let batch = vec![
        BatchRequest { samples: bits(&waveform(1, 40)), response: 1 },
        BatchRequest { samples: bits(&waveform(2, 30)), response: 2 },
    ];
    assert!(is_countable(&classifier, &batch));
    let told = answer_batch(&classifier, batch);
    assert_eq!(told.responses, vec![1, 2]);
    let texts: Vec<String> = told
        .replies
        .into_iter()
        .map(|reply| match reply {
            Ok(_) => panic!("answered"),
            Err(message) => message,
        })
        .collect();
    assert_eq!(texts.len(), 2);
    assert_eq!(texts[0], texts[1]);
    assert!(texts[0].contains("[2, 5, 9, 0]"), "{}", texts[0]);
}

#[test]
fn model_without_labels_cannot_answer() {
    let cfg = Config { id2label: Vec::new(), ..config(true, "group", 4) };
    let classifier = load(cfg);
    match classifier.predict_batch(vec![bits(&waveform(1, 40))]) {
        Ok(_) => panic!("answered"),
        Err(err) => assert!(matches!(err, ClassifierError::Model(_))),
    }
}

#[test]
fn kernels_without_taps_are_loaded_on_the_processor() {
    let cfg = config(true, "group", 0);
    assert!(cfg.is_loadable());
    assert!(!cfg.is_usable());
    let file = safetensors(&weights(&cfg));
    match GenderClassifier::load(cfg, file, Device::Cpu) {
        Ok(classifier) => assert_eq!(classifier.model.encoder.pos_conv_embed.padding, 0),
        Err(err) => panic!("{}", err.message()),
    }
}

#[test]
fn model_is_kept_on_the_device_asked_for() {
    let classifier = load(config(true, "group", 4));
    assert!(classifier.device.is_cpu());
    assert!(classifier.model.projector.weight().device().is_cpu());
    assert!(classifier.model.encoder.pos_conv_embed.conv.weight().device().is_cpu());
}

#[test]
fn answers_do_not_rest_on_dropout() {
    let dropped = Config {
        activation_dropout: Scalar::F64(0.5),
        attention_dropout: Scalar::F64(0.25),
        feat_proj_dropout: Scalar::F64(0.75),
        final_dropout: Scalar::F64(0.9),
        hidden_dropout: Scalar::F64(0.0),
        ..config(true, "group", 4)
    };
    let batch = vec![bits(&waveform(1, 40)), bits(&waveform(2, 23))];
    let (one, other) = (load(config(true, "group", 4)), load(dropped));
    match (one.predict_batch(batch.clone()), other.predict_batch(batch)) {
        (Ok(one), Ok(other)) => {
            let one: Vec<_> = one.iter().map(named).collect();
            let other: Vec<_> = other.iter().map(named).collect();
            assert_eq!(one, other);
        }
        _ => panic!("no answer"),
    }
}

/// Whether a classifier with these settings is loaded.
fn loads(cfg: Config) -> bool {
    assert!(cfg.is_loadable());
    let file = safetensors(&weights(&cfg));
    GenderClassifier::load(cfg, file, Device::Cpu).is_ok()
}

#[test]
fn layers_that_cannot_run_are_loaded_on_the_processor() {
    let cfg = || config(true, "group", 4);
    assert!(loads(Config { conv_stride: vec![0, 2], ..cfg() }));
    assert!(loads(Config { conv_kernel: vec![5, 0], ..cfg() }));
    assert!(loads(Config { conv_dim: vec![4, 0], ..cfg() }));
    assert!(loads(Config { conv_dim: vec![0, 6], ..cfg() }));
    assert!(loads(Config { num_conv_pos_embedding_groups: 9, ..cfg() }));
    assert!(loads(Config { num_conv_pos_embedding_groups: 9, ..config(true, "group", 0) }));
    assert!(loads(Config { hidden_size: 0, ..cfg() }));
}

#[test]
fn lists_of_unlike_lengths_answer_where_the_channels_agree() {
    let cfg = Config { conv_dim: vec![4, 6, 6], ..config(true, "group", 4) };
    let entries = weights(&Config { conv_dim: vec![4, 6], ..config(true, "group", 4) });
    assert!(cfg.is_usable());
    assert_eq!(cfg.conv_layer_count(), 2);
    let classifier = match GenderClassifier::load(cfg, safetensors(&entries), Device::Cpu) {
        Ok(classifier) => classifier,
        Err(err) => panic!("{}", err.message()),
    };
    let batch = vec![bits(&waveform(1, 40))];
    let expected = load(config(true, "group", 4)).predict_batch(batch.clone());
    match (classifier.predict_batch(batch), expected) {
        (Ok(one), Ok(other)) => assert_eq!(named(&one[0]), named(&other[0])),
        _ => panic!("no answer"),
    }
}

/// The share of each class by its label.
fn share(answer: &GenderResponse, label: &str) -> f64 {
    match answer.scores.iter().find(|score| score.label == label) {
        Some(score) => f32::from_bits(score.score) as f64,
        None => panic!("no label {label}"),
    }
}

fn answers(classifier: &GenderClassifier, batch: &[Vec<f32>]) -> Vec<GenderResponse> {
    match classifier.predict_batch(batch.iter().map(|row| bits(row)).collect()) {
        Ok(answers) => answers,
        Err(err) => panic!("{}", err.message()),
    }
}

#[test]
fn answers_do_not_rest_on_the_place() {
    let classifier = load(config(true, "group", 4));
    let batch = vec![waveform(1, 40), waveform(2, 23), waveform(3, 31)];
    let order = [2, 0, 1];
    let turned: Vec<Vec<f32>> = order.iter().map(|i| batch[*i].clone()).collect();
    let (one, other) = (answers(&classifier, &batch), answers(&classifier, &turned));
    for (i, from) in order.iter().enumerate() {
        let (a, b) = (share(&other[i], "male"), share(&one[*from], "male"));
        assert!((a - b).abs() < 1e-6, "{a} {b}");
    }
}

#[test]
fn answers_do_not_rest_on_other_requests() {
    let classifier = load(config(true, "group", 4));
    let one = answers(&classifier, &[waveform(1, 40), waveform(2, 23), waveform(3, 31)]);
    let other = answers(&classifier, &[waveform(2, 23), waveform(4, 40), waveform(2, 23)]);
    for i in [0, 2] {
        let (a, b) = (share(&other[i], "male"), share(&one[1], "male"));
        assert!((a - b).abs() < 1e-6, "{a} {b}");
    }
}

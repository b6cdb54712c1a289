# voice_gender

Voice gender classification from 16 kHz mono audio with a Wav2Vec2 model, as a library whose
behaviour is stated in contracts and proved with Verus, and an HTTP service around it.

## Layout

- `src/audio.rs`: request bodies, WAV files or raw signed 16-bit little-endian PCM
- `src/config.rs`, `src/layers.rs`, `src/features.rs`, `src/encoder.rs`, `src/masks.rs`,
  `src/model.rs`: the model, from its settings and weights to the scores of the classes
- `src/classifier.rs`, `src/scores.rs`: padding, softmax, and the classes in their order
- `src/dropout.rs`, `src/placing.rs`, `src/padding.rs`: the scores do not rest on the dropout
  rates, nor on the place of a request in its batch or on the other requests, and padding has no
  part in frames that hand out no share of attention to it
- `src/batch.rs`: how requests are gathered, answered together and told one by one
- `src/api.rs`, `src/device.rs`: paths, status codes, and the choice of the device
- `src/grid.rs`, `src/tensor.rs`: a mathematical model of tensors, and the operations of candle
  described over it
- `src/text.rs`: numbers in decimal
- `app/`: the command line, downloads, floating-point preparation of samples, and HTTP

## Trust

Candle and hound do the numerical work and the reading of WAV files. Each call into them stands
behind a small function whose contract is believed, not proved; its comment says what is
claimed. Tensor elements are modelled by their bit patterns. An arithmetic operation promises a
result out of a named set of possible outcomes, because floats may come out differently on
another machine or device. The sets are named for the parts that an operation works on by
themselves: elements, lines along the last axis, or the requests of a batch. Success is promised
on the processor, where candle fails only if sizes do not fit; on a graphics card it depends on
the card.

## Service

```text
--listen <ADDR>          REST API listen address (default: 127.0.0.1:3000)
--model <MODEL_ID>       Hugging Face model id
--max-batch-size <N>     Maximum queued requests per batch
--batch-delay-ms <MS>    Milliseconds to wait for more requests per batch
--device <auto|cuda|cpu> Inference device
```

`GET /health` answers with status 204. `POST /v1/gender` takes one WAV file or raw PCM body and
answers with the label of the best class and the score of every class, best one first.

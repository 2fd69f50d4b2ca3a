# stacker

Focus stacking: alignment and fusion of a stack of frames, the networks that do
it, and their training.

`src/` is a library verified with Verus. It holds what can be decided without a
pixel's arithmetic: the geometry of tiles, crops and networks, model discovery
and manifests, the frame cache, the schedules of a pipeline run and of a training
run, the training data's layout, and the command line.

- `text`, `paths`, `grid`, `order`: words, file names, rectangles, orderings
- `model`, `discovery`, `runtime`: network geometry, manifests, device and loader choice
- `infer`, `bridge`, `loss`: tiling plans, stack checks, loss scales
- `data`: crops, composites, scenes, samples, datasets
- `pipeline`: frame selection, alignment and fusion schedules, cache, output
- `train`: random draws, command line, checkpoints, schedules, the training run

Numbers with a fraction travel as bit patterns. Each module's laws are the public
proof functions named `law_*`.

`app/` is the ordinary Rust around it: tensors, files, images, and `main`.
`tests/` runs the library on concrete values.

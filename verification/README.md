# rustbow

A terminal animation of random characters painted in shifting colours.

- `src/` is the verified library: colour mixing (`color_gen`), character
  sets, configuration sets and the configuration model (`config`), the
  parser for colour-generator strings (`parser`), text helpers stated over
  `Seq<char>` (`text`), frame pacing (`frame`) and the choice of the next
  character and cell (`render`). Contracts are stated over spec functions
  and views; the public `law_*` proof functions state properties that
  relate several operations.
- `app/` is the program around it: command line, terminal I/O, the
  floating-point colour generators (hue shift, Perlin noise) and the frame
  loop.
- `tests/` runs the library on concrete inputs.

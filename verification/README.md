# european_mc

A Monte Carlo pricer for European call and put options, split into a verified
library and a thin program around it.

- `src/` is the library, verified with Verus:
  - `cli` reads the command line of a pricing run (flags, values, error messages);
  - `option_kind` reads the option kind (`call` / `put`, any letter case);
  - `partition` divides the simulated paths among worker threads, with proofs
    that every path is simulated exactly once and that the shares are balanced;
  - `histogram` counts samples into chart bins, with a proof that the counts add
    up to the number of samples;
  - `chart` works out the files and captions of a ticker's charts;
  - `text` holds string comparison and the reading of counts.
- `app/` is the program: random sampling, the floating-point pricing, threads,
  CSV files and the plotting. Started under the name `visualize` it draws the
  histograms of a simulation file.

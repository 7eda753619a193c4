# Batch Acceptance Prediction

Desktop tool that scores the annotation quality of LabelMe batch folders,
shows the predictions in an egui dashboard, lets the user correct single
annotations, and extracts risky files.

## Layout

- `src/` — the verified library (Verus). It holds the decisions of the tool:
  - `types` — labels, reject reasons, file entries, table columns, tiers;
  - `text` — character-level helpers (trim, split, digits) with their specs;
  - `parsing` — review-log status lines, the editor's override tokens, and the
    line appended to a log;
  - `stem` — the dataset's file-name grammar and the batch number of a folder;
  - `pipeline` — file-index keys and the scan that splits files into labeled,
    unprocessed and ambiguous ones;
  - `prior` — review counts per (batch, subject) cell;
  - `folds` — k-fold layout and per-reason reject counts;
  - `geometry` — the pixel boxes sampled by the image features;
  - `extract` — which files an extract run transfers, collision-free names,
    and the result messages;
  - `canvas` — selection and interaction decisions of the annotation editor;
  - `ui`, `app_state` — labels, number formatting, filters and panel state.
- `app/` — the program around it: the window, file-system access, image
  processing, the logistic-regression model and other floating-point numerics.
- `tests/` — tests of the library.

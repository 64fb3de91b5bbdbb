# Causpan

Causal attribution of kernel-level side effects to individual logical requests in concurrent
asynchronous applications.

An application that multiplexes many requests over a few threads knows which request each of its
operations belongs to. The kernel sees processes, threads, times and syscalls. Causpan measures how
well simple strategies recover the one from the other.

## Layout

* `src/` is the library, verified with Verus: events and identifiers, the plan and the ground truth
  of a workload, the reader of `strace` output, the matching of kernel events with ground truth, the
  PID, PID+TID and time-window strategies and their majority vote, their scores, and the plan, the
  course and the tables of experiments.
* `tests/` runs the library on concrete values.
* `app/` is the four programs around it, in one executable: `workload`, `collector`, `evaluator` and
  `experiment-runner`. It runs the one by whose name it is called, so it is installed four times,
  or linked, under `target/release/` or `target/debug/`.

## What is proved

Every function of the library states what it returns, and is proved to return it without
overflow or panic. Beyond that, proof functions whose names begin with `law_` relate functions to
each other. Some of them:

* A kernel event is matched to a request exactly when one fitting operation on its thread is closer
  to it than every other and at most ten seconds away (`laws::law_match_is_closest`,
  `laws::law_closest_is_matched`).
* Where requests share a process or a thread, the PID or the PID+TID strategy cannot be right about
  all of them; where they share none, it is (`laws`).
* A time window attributes an event to the most recent operation of its thread, if that lies in the
  window (`laws::law_window_attributes_most_recent`).
* A majority vote follows the request that most strategies name (`laws::law_vote_follows_most`).
* Requests have different file paths. They have different network targets unless their numbers lie a
  multiple of 65536, the number of ports, apart (`workload::law_targets_unique`). Operations have
  different ids as long as there are fewer than 2^32 requests, with fewer than 2^32 operations each
  (`workload::law_planned_ids_unique`).
* The runs of an experiment have different tags if no concurrency level is listed twice
  (`experiment::law_planned_tags_unique`).
* The first failure ends an experiment, and the results of its runs are joined in the order of the
  plan (`progress`).
* Results that are written to a table are read back as they were (`report::law_results_read_back`).

## What is trusted

Two wrappers around outside crates are believed without proof: `strace::regex_captures` on `regex`,
and `workload::draw_between` on `rand`, whose generator type is declared beside it. So is one
contract for the standard library: that of `String::push` in `text`.

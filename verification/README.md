# pitwall

A terminal dashboard for self-hosted CI runners: the CPU and memory use of each runner, the job
that it is running, hosted jobs and deployments in flight.

The rules behind the screen are a library that is verified with Verus; an ordinary program round
it talks to the outside world.

## Layout

- `src/` is the library. Its contracts say what each function returns for every input, and the
  public proof functions state what holds of the library as a whole.
  - `config` layers the configuration file under the environment.
  - `resource_docker` and `resource_native` pick the runners and turn counters into readings.
  - `jobs` and `vercel` read what the services report, and keep it per scope.
  - `model` pairs readings with jobs and orders the rows; `history` keeps recent samples.
  - `app` holds the state and says what an event does to it.
  - `ui` says what the screen shows: texts, columns, colours and where the sections go; `theme`
    holds the colours.
  - `text`, `json`, `keyed`, `ordering` and `stats_math` are the parts that these share.
- `app/` is the program: it reads files, asks the Docker daemon, `gh`, `vercel` and `systemctl`,
  listens to the keyboard and draws. What it computes itself are floating-point figures: the CPU
  percentage, the heights and colours of sparklines and how far the gauge is filled.
- `tests/` runs the library.

## Settings

All settings are optional. A variable that is set wins over the file, and the file over the
default. The file is `$PITWALL_CONFIG`, or else `pitwall/config.toml` below `$XDG_CONFIG_HOME` or
`$HOME/.config`.

| Variable | File | Default |
|---|---|---|
| `PITWALL_SOCKET` | `socket` | the Unix socket in `DOCKER_HOST`, else `/run/user/$UID/docker.sock` |
| `PITWALL_REPO` | `repo` | none; several with commas between them |
| `PITWALL_PREFIX` | `prefix` | `ci-runner-`; `prefix=owner/repo` maps a fleet to its repository |
| `PITWALL_SLICE_CAP_GIB` | `slice_cap_gib` | 24 |
| `PITWALL_THEME` | `theme` | `mocha` |
| `PITWALL_MEM_WARN_PCT` | | 85 |
| `PITWALL_MEM_CRIT_PCT` | | 90 |

The memory gauge adds up all containers that a prefix matches, of every fleet, and leaves native
runners out.

Quit with `q`, Esc or Ctrl-C.

## What is taken on trust

The library calls `serde_json`, `humantime`, `unicode-width` and `ratatui`'s layout, each behind
one small function whose doc comment says what is claimed of the call.

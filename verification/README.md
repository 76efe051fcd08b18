# devc

`devc` brings up the dev container of a project and opens a shell or runs a command in it.

```bash
devc npm test # Run a command inside the container, creating or starting it if need be.
devc          # Open a shell inside the container.
```

The library under `src/` makes the decisions, and is verified with Verus: its contracts say what
the functions return, and the laws that hold of the whole (`law_…`) are proved beside them. The
hash in an image's name is that of what the path of the workspace writes to the standard hasher;
what that is depends on the machine. The program under `app/` carries the decisions out: it looks
at files, parses them, makes requests and runs `docker`.

| module | what it decides |
| --- | --- |
| `config` | where `devcontainer.json` is looked for, what it asks for, what its variables stand for |
| `session` | what is run, step by step, to bring the container up and to attach to it |
| `container`, `docker` | the command lines of `docker`, and what its answers say |
| `features`, `options`, `order`, `dockerfile` | the features of an image: their references, options, order and Dockerfile |
| `registry` | the requests that fetch a feature, and what the answers say |
| `cli` | the command line of `devc` itself |
| `json`, `sorted_map`, `lists`, `paths`, `text`, `utf8` | what the others are made of |

What is believed without proof of other crates stands in `json` (`serde_json`), and of the
standard library in `text`, `container` and `registry`; each such item says what is claimed.

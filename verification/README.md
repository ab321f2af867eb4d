# lib: the verified core of a game bot library

The bot library gives game bots their knowledge of a map (the area
awareness system, AAS) and keeps their goals, characters and weapon states.

`src/` is written in Verus; every function there is verified against its
contract:

- `cstr`, `atoi`: NUL-terminated byte strings and reading integers from them.
- `aasfile`, `aas_file`, `aasworld`, `fileinfo`: the AAS data, the AAS file
  format (loading, writing, and that writing then loading gives the data
  back), and the figures that describe the data.
- `cluster`, `clusternum`, `clustering`, `portals`, `routealt`: splitting the
  areas into clusters separated by portals, numbering them, finding portal
  candidates, and alternative route clusters.
- `optimize`: dropping what the routing does not need from the AAS data.
- `links`, `entity`, `sample`, `areaflood`: the links between entities and
  areas, the entities and their per-frame update, reading area data, and the
  debug flood of a cluster.
- `chaincheck`: checking that every entity's links form a chain of its own
  before the updates that rely on it.
- `strindex`, `bspent`: the configuration string indexes and the entities of
  the BSP file.
- `goal`, `itemgoals`, `levelitems`, `character`, `weapon`, `weights`: the
  goal stacks of the bots, the goals of the level, its items, the bot
  characters, weapon states and the weight lookups by name.
- `weaponconfig`, `itemscript`: the weapon and item configurations as their
  scripts define them.
- `bspparse`, `charscript`, `weightscript`: the entity text of the BSP
  file, bot character files and weight configurations, read from the
  tokens of the script reader.
- `charcache`, `weightfiles`: the table work of loading bot characters
  (free handles, characters already loaded from a file, characters between
  two skills) and the list of weight configurations already read.
- `entityitems`: following the item entities of a frame to the level items.
- `itemchoice`: the decisions of goal item choice that need no floats (the
  area chosen from, the candidate items, the goal made of the item chosen)
  and the item weights of the bots.

`tests/` holds the tests, run against the compiled library.

`app/` holds the parts that talk to the game engine through its import
interface or compute with floats (traces through the area tree, movement
prediction, boxes and distances, fuzzy weights, genetic selection),
around the verified library.

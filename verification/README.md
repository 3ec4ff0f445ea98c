# autohour

autohour submits the daily log of a worker as hours and as a report to a time sheet server, finds
the working days of a month for which no report was written, and can run as a daemon that does so
every day.

The library in `src/` is written in Verus: its functions state in contracts what they return, and
the contracts are proved. The command line program in `app/` performs what the library decides:
it talks to the server, reads files and the environment, and sends notifications.

| module | what it holds |
| --- | --- |
| `log`, `hours` | the sections of a log, the hours that it declares, and why a log is refused |
| `double` | decimal numbers as double precision holds them |
| `date` | the calendar, dates and times as they are written, and the days that the server knows |
| `schedule`, `daemon` | when the daemon runs next, and how it proceeds |
| `holidays`, `missing` | configured holidays, working days, and the reports that are missing |
| `json`, `api` | what is sent to the server, and what its replies mean |
| `encoding`, `login`, `session` | how texts and passwords travel, the login form, the session cookie |
| `flow`, `tasks` | login, session, requests and tasks as state machines that name the next action |
| `notify` | whom notifications go to and what they say |
| `failure` | what can go wrong, and the message that says so |
| `text`, `lists` | texts as sequences of characters, and facts about lists |

What comes from other crates (chrono, base64, rsa, scraper, url, urlencoding, serde_urlencoded,
lettre) is called through small functions whose contracts say what is taken on trust.

# Rill

Rill is a BitTorrent client for the desktop, built on mtorrent, GTK and libadwaita.

The library in `src/` holds everything Rill decides and computes, verified with Verus: which
torrents run and on which ports, how magnet links and .torrent files become torrents, where a
torrent's content is and what happens when it is moved or goes missing, the download queue, what
the window shows, saves and sorts by, and how records and settings are stored. What mtorrent,
urlencoding, sha1, chrono and the standard library compute for it stands behind small functions
whose contracts are trusted; each says in its comment what it takes for granted.

The program in `app/` does the rest: it reads and writes files, the database and sockets, runs the
torrents, and shows the windows.

    src/engine, listener, ports        running torrents and what they report
    src/magnet, metainfo, identity     what a torrent is called and known by
    src/torrent_paths, pieces,         a torrent's content on disk
      progress, layouts
    src/queue, turns                   which downloads run at once
    src/window, transfers, selection   the window's torrents
    src/row, details, util, sort       what is shown of a torrent, and in which order
    src/adding, input, uri             adding torrents
    src/storage, numbers, session      what is kept between sessions
    src/text, path, percent, table     what all of it is built from
